//! The virtual machine: a fetch-dispatch-execute loop over an operand stack
//! and a bounded call-frame stack.
//!
//! Execution is specified by the relation `run_rel` over a model of the
//! machine state: it pins every step down exactly, except the payloads of
//! exponentiation results, which are outputs of the embedder-supplied power
//! routines on the operands' encodings (anything those routines' contracts
//! admit; the result's kind is fixed either way). The machine dispatches one
//! chunk per top-level run; since no opcode jumps or calls, the instruction
//! cursor only moves forward and frames only pop, so the loop provably
//! terminates.

use vstd::prelude::*;

use crate::chunk::BytecodeOp;
use crate::chunk::Op;
use crate::compiler::Compiler;
use crate::object::ObjFucntion;
use crate::object::Object;
use crate::object::ObjectType;
use crate::parser::CompileError;
use crate::parser::Parser;
use crate::parser::sp_program;
use crate::token::LexicalError;
use crate::token::Operator;
use crate::token::Token;
use crate::token::Tokenizer;
use crate::token::spec_tokenize_from;
use crate::token::tokens_model;
use crate::value::RuntimeError;
use crate::value::Value;
use crate::value::is_number;
use crate::value::is_truthy;
use crate::value::spec_add;
use crate::value::spec_sub;
use crate::value::spec_mul;
use crate::value::spec_div;
use crate::value::spec_int_division;
use crate::value::spec_value_eq;
use crate::value::spec_value_neq;
use crate::value::spec_value_lt;
use crate::value::spec_value_le;
use crate::value::spec_pair_error;
use crate::value::spec_pow_defined;
use crate::value::spec_pow_exact;
use crate::value::spec_truthy;
use crate::float::f64_of_i32;

verus! {

/// How one whole interpretation ends when it fails: in the scanner, the
/// compiler, or the machine.
#[derive(Debug, Clone, Copy, PartialEq, Eq, Structural)]
pub enum InterpretError {
    Lexical(LexicalError),
    Compile(CompileError),
    Runtime(RuntimeError),
}

/// One invocation's record: the called function (by registry index), the
/// instruction cursor, and the frame's base slot in the operand stack.
#[derive(Debug, Clone, Copy, PartialEq, Eq, Structural)]
pub struct CallFrame {
    pub function: usize,
    pub ip: usize,
    pub slots: usize,
}

/// The mathematical image of one call frame, with unbounded positions.
pub ghost struct FrameModel {
    pub function: int,
    pub ip: int,
    pub slots: int,
}

/// The model of a call frame.
pub open spec fn frame_model(f: CallFrame) -> FrameModel {
    FrameModel { function: f.function as int, ip: f.ip as int, slots: f.slots as int }
}

/// The models of the machine's frame stack.
pub open spec fn frames_model(fs: Seq<CallFrame>) -> Seq<FrameModel> {
    fs.map_values(|f: CallFrame| frame_model(f))
}

/// The mathematical image of a function object: what the machine reads.
pub ghost struct FunModel {
    pub arity: u8,
    pub code: Seq<BytecodeOp>,
    pub consts: Seq<Value>,
}

/// The model of a function object.
pub open spec fn fun_model(f: ObjFucntion) -> FunModel {
    FunModel { arity: f.arity, code: f.chunk.codes@, consts: f.chunk.constants@ }
}

/// The models of the machine's function registry.
pub open spec fn funs_model(fs: Seq<ObjFucntion>) -> Seq<FunModel> {
    fs.map_values(|f: ObjFucntion| fun_model(f))
}

/// The `Operator` a binary opcode dispatches through, if it is one.
pub open spec fn spec_opcode_operator(op: Op) -> Option<Operator> {
    match op {
        Op::Add => Some(Operator::Plus),
        Op::Subtract => Some(Operator::Minus),
        Op::Multiply => Some(Operator::Star),
        Op::Exponent => Some(Operator::StarStar),
        Op::Divide => Some(Operator::Slash),
        Op::IntDivide => Some(Operator::SlashSlash),
        Op::ValueEqual => Some(Operator::EqualEqual),
        Op::NotValueEqual => Some(Operator::NotEqual),
        Op::Less => Some(Operator::Less),
        Op::LessEqual => Some(Operator::LessEqual),
        Op::Greater => Some(Operator::Greater),
        Op::GreaterEqual => Some(Operator::GreaterEqual),
        _ => None,
    }
}

/// The exact value a deterministic binary operator yields (every binary
/// operator but exponentiation).
pub open spec fn spec_operator_value(operator: Operator, a: Value, b: Value) -> Result<
    Value,
    RuntimeError,
> {
    match operator {
        Operator::Plus => spec_add(a, b),
        Operator::Minus => spec_sub(a, b),
        Operator::Star => spec_mul(a, b),
        Operator::Slash => spec_div(a, b),
        Operator::SlashSlash => spec_int_division(a, b),
        Operator::EqualEqual => spec_value_eq(a, b),
        Operator::NotEqual => spec_value_neq(a, b),
        Operator::Less => spec_value_lt(a, b),
        Operator::LessEqual => spec_value_le(a, b),
        Operator::Greater => spec_value_lt(b, a),
        Operator::GreaterEqual => spec_value_le(b, a),
        _ => Err(RuntimeError::OperandsNotNumbers),
    }
}

/// The instruction cursor of the active (last) frame moved forward by `k`.
pub open spec fn bump(frames: Seq<FrameModel>, k: int) -> Seq<FrameModel>
    recommends
        frames.len() >= 1,
{
    frames.update(
        frames.len() - 1,
        FrameModel {
            function: frames.last().function,
            ip: frames.last().ip + k,
            slots: frames.last().slots,
        },
    )
}

/// The units an active frame has yet to dispatch.
pub open spec fn frame_rem(objects: Seq<FunModel>, f: FrameModel) -> int {
    if 0 <= f.function < objects.len() {
        let n = objects[f.function].code.len();
        if f.ip <= n {
            n - f.ip
        } else {
            0
        }
    } else {
        0
    }
}

/// The run's termination measure: every frame's remaining units, plus one
/// per frame (so popping a frame decreases it too).
pub open spec fn frames_measure(objects: Seq<FunModel>, frames: Seq<FrameModel>) -> int
    decreases frames.len(),
{
    if frames.len() == 0 {
        0
    } else {
        frames_measure(objects, frames.drop_last()) + frame_rem(objects, frames.last()) + 1
    }
}

/// Popping the last frame decreases the measure; bumping its cursor, with
/// the rest of the state fixed, decreases it too.
proof fn lemma_measure_parts(objects: Seq<FunModel>, frames: Seq<FrameModel>)
    requires
        frames.len() >= 1,
    ensures
        frames_measure(objects, frames) == frames_measure(objects, frames.drop_last())
            + frame_rem(objects, frames.last()) + 1,
        frames_measure(objects, frames) >= frames_measure(objects, frames.drop_last()) + 1,
        frames_measure(objects, frames.drop_last()) >= 0,
    decreases frames.len(),
{
    if frames.len() == 1 {
    } else {
        lemma_measure_parts(objects, frames.drop_last());
    }
}

/// Bumping the active frame's cursor (staying within its code) decreases the
/// measure.
proof fn lemma_measure_bump(objects: Seq<FunModel>, frames: Seq<FrameModel>, k: int)
    requires
        frames.len() >= 1,
        k >= 1,
        0 <= frames.last().function < objects.len(),
        0 <= frames.last().ip,
        frames.last().ip + k <= objects[frames.last().function].code.len(),
    ensures
        frames_measure(objects, bump(frames, k)) < frames_measure(objects, frames),
        frames_measure(objects, bump(frames, k)) >= 0,
{
    let b = bump(frames, k);
    assert(b.drop_last() =~= frames.drop_last());
    lemma_measure_parts(objects, frames);
    lemma_measure_parts(objects, b);
}

/// What executing from a machine state can yield, and what the operand
/// stack holds when the run ends. Every step is deterministic except an
/// exponentiation's payload, which is an output of the supplied power
/// routine on the operands' encodings (any output the routine's contract
/// admits). `fin` is the operand stack at the run's end: the successful
/// endings pin it (the stream running out leaves the stack as it stands;
/// the outermost `Return` pops the return value and the callee beneath it),
/// while the error endings leave it open.
pub open spec fn run_rel<FP: Fn(u64, u64) -> u64, CP: Fn(u64, u64, u64, u64) -> (u64, u64)>(
    fpow: FP,
    cpow: CP,
    objects: Seq<FunModel>,
    stack: Seq<Value>,
    frames: Seq<FrameModel>,
    result: Result<Option<Value>, RuntimeError>,
    fin: Seq<Value>,
) -> bool
    decreases frames_measure(objects, frames), frames.len(),
    when frames.len() >= 1 && frames_measure(objects, frames) >= 0
    via run_rel_decreases::<FP, CP>
{
    let fr = frames.last();
    if !(0 <= fr.function < objects.len() && 0 <= fr.ip) {
        result == Err::<Option<Value>, RuntimeError>(RuntimeError::MalformedBytecode)
    } else {
        let code = objects[fr.function].code;
        let consts = objects[fr.function].consts;
        if fr.ip >= code.len() {
            // the instruction stream ran out: the top-level script ends its
            // run here, yielding the value its last statement left (if any)
            if frames.len() == 1 {
                result == Ok::<Option<Value>, RuntimeError>(
                    if stack.len() - fr.slots > 1 {
                        Some(stack.last())
                    } else {
                        None
                    },
                ) && fin == stack
            } else {
                result == Err::<Option<Value>, RuntimeError>(RuntimeError::MalformedBytecode)
            }
        } else {
            match code[fr.ip] {
                BytecodeOp::ConstantIndex(_) => result == Err::<Option<Value>, RuntimeError>(
                    RuntimeError::MalformedBytecode,
                ),
                BytecodeOp::JumpDistance(_) => result == Err::<Option<Value>, RuntimeError>(
                    RuntimeError::MalformedBytecode,
                ),
                BytecodeOp::Op(op) => match op {
                    Op::Constant => {
                        if fr.ip + 1 < code.len() {
                            match code[fr.ip + 1] {
                                BytecodeOp::ConstantIndex(x) => if (x as int) < consts.len() {
                                    run_rel(
                                        fpow,
                                        cpow,
                                        objects,
                                        stack.push(consts[x as int]),
                                        bump(frames, 2),
                                        result,
                                        fin,
                                    )
                                } else {
                                    result == Err::<Option<Value>, RuntimeError>(
                                        RuntimeError::MalformedBytecode,
                                    )
                                },
                                _ => result == Err::<Option<Value>, RuntimeError>(
                                    RuntimeError::MalformedBytecode,
                                ),
                            }
                        } else {
                            result == Err::<Option<Value>, RuntimeError>(
                                RuntimeError::MalformedBytecode,
                            )
                        }
                    },
                    Op::True => run_rel(
                        fpow,
                        cpow,
                        objects,
                        stack.push(Value::Bool(true)),
                        bump(frames, 1),
                        result,
                        fin,
                    ),
                    Op::False => run_rel(
                        fpow,
                        cpow,
                        objects,
                        stack.push(Value::Bool(false)),
                        bump(frames, 1),
                        result,
                        fin,
                    ),
                    Op::Pop => run_rel(
                        fpow,
                        cpow,
                        objects,
                        if stack.len() > 0 {
                            stack.drop_last()
                        } else {
                            stack
                        },
                        bump(frames, 1),
                        result,
                        fin,
                    ),
                    Op::Return => {
                        if frames.len() == 1 {
                            // outermost: pop the return value and the callee
                            // beneath it, and end the run with that value
                            result == Ok::<Option<Value>, RuntimeError>(
                                if stack.len() >= 1 {
                                    Some(stack.last())
                                } else {
                                    None
                                },
                            ) && fin == (if stack.len() >= 2 {
                                stack.drop_last().drop_last()
                            } else {
                                Seq::<Value>::empty()
                            })
                        } else {
                            run_rel(fpow, cpow, objects, stack, frames.drop_last(), result, fin)
                        }
                    },
                    Op::Assert => {
                        if stack.len() == 0 {
                            result == Err::<Option<Value>, RuntimeError>(
                                RuntimeError::StackUnderflow,
                            )
                        } else if spec_truthy(stack.last()) {
                            run_rel(
                                fpow,
                                cpow,
                                objects,
                                stack.drop_last(),
                                bump(frames, 1),
                                result,
                                fin,
                            )
                        } else {
                            result == Err::<Option<Value>, RuntimeError>(
                                RuntimeError::AssertionFailed,
                            )
                        }
                    },
                    Op::Not | Op::Negative | Op::Noop => result == Err::<
                        Option<Value>,
                        RuntimeError,
                    >(RuntimeError::UnsupportedInstruction),
                    _ => {
                        // a binary arithmetic or comparison operator
                        match spec_opcode_operator(op) {
                            None => result == Err::<Option<Value>, RuntimeError>(
                                RuntimeError::MalformedBytecode,
                            ),
                            Some(operator) => {
                                if stack.len() < 2 {
                                    result == Err::<Option<Value>, RuntimeError>(
                                        RuntimeError::StackUnderflow,
                                    )
                                } else {
                                    let b = stack.last();
                                    let a = stack.drop_last().last();
                                    let rest = stack.drop_last().drop_last();
                                    if !a.is_numeric() || !b.is_numeric() {
                                        result == Err::<Option<Value>, RuntimeError>(
                                            RuntimeError::OperandsNotNumbers,
                                        )
                                    } else if operator == Operator::StarStar {
                                        // the pushed payload is an output of
                                        // the supplied power routine on the
                                        // operands' encodings
                                        match (a, b) {
                                            (Value::Integer(x), Value::Integer(y)) => exists|
                                                p: u64,
                                            |
                                                #[trigger] call_ensures(
                                                    fpow,
                                                    (f64_of_i32(x), f64_of_i32(y)),
                                                    p,
                                                ) && run_rel(
                                                    fpow,
                                                    cpow,
                                                    objects,
                                                    rest.push(Value::Float(p)),
                                                    bump(frames, 1),
                                                    result,
                                                    fin,
                                                ),
                                            (Value::Float(xb), Value::Integer(y)) => exists|
                                                p: u64,
                                            |
                                                #[trigger] call_ensures(
                                                    fpow,
                                                    (xb, f64_of_i32(y)),
                                                    p,
                                                ) && run_rel(
                                                    fpow,
                                                    cpow,
                                                    objects,
                                                    rest.push(Value::Float(p)),
                                                    bump(frames, 1),
                                                    result,
                                                    fin,
                                                ),
                                            (Value::Float(xb), Value::Float(yb)) => exists|
                                                p: u64,
                                            |
                                                #[trigger] call_ensures(fpow, (xb, yb), p)
                                                    && run_rel(
                                                    fpow,
                                                    cpow,
                                                    objects,
                                                    rest.push(Value::Float(p)),
                                                    bump(frames, 1),
                                                    result,
                                                    fin,
                                                ),
                                            (Value::Complex(xr, xi), Value::Integer(y)) => exists|
                                                pp: (u64, u64),
                                            |
                                                #[trigger] call_ensures(
                                                    cpow,
                                                    (xr, xi, f64_of_i32(y), 0u64),
                                                    pp,
                                                ) && run_rel(
                                                    fpow,
                                                    cpow,
                                                    objects,
                                                    rest.push(Value::Complex(pp.0, pp.1)),
                                                    bump(frames, 1),
                                                    result,
                                                    fin,
                                                ),
                                            (Value::Complex(xr, xi), Value::Complex(yr, yi)) => exists|
                                                pp: (u64, u64),
                                            |
                                                #[trigger] call_ensures(
                                                    cpow,
                                                    (xr, xi, yr, yi),
                                                    pp,
                                                ) && run_rel(
                                                    fpow,
                                                    cpow,
                                                    objects,
                                                    rest.push(Value::Complex(pp.0, pp.1)),
                                                    bump(frames, 1),
                                                    result,
                                                    fin,
                                                ),
                                            _ => result == Err::<Option<Value>, RuntimeError>(
                                                spec_pair_error(a, b),
                                            ),
                                        }
                                    } else {
                                        match spec_operator_value(operator, a, b) {
                                            Ok(v) => run_rel(
                                                fpow,
                                                cpow,
                                                objects,
                                                rest.push(v),
                                                bump(frames, 1),
                                                result,
                                                fin,
                                            ),
                                            Err(e) => result == Err::<Option<Value>, RuntimeError>(
                                                e,
                                            ),
                                        }
                                    }
                                }
                            },
                        }
                    },
                },
            }
        }
    }
}

#[via_fn]
proof fn run_rel_decreases<FP: Fn(u64, u64) -> u64, CP: Fn(u64, u64, u64, u64) -> (u64, u64)>(
    fpow: FP,
    cpow: CP,
    objects: Seq<FunModel>,
    stack: Seq<Value>,
    frames: Seq<FrameModel>,
    result: Result<Option<Value>, RuntimeError>,
    fin: Seq<Value>,
) {
    let fr = frames.last();
    if 0 <= fr.function < objects.len() && 0 <= fr.ip {
        let code = objects[fr.function].code;
        if fr.ip < code.len() {
            lemma_measure_parts(objects, frames);
            if code[fr.ip] == BytecodeOp::Op(Op::Return) && frames.len() > 1 {
                lemma_measure_parts(objects, frames.drop_last());
            } else {
                if fr.ip + 2 <= code.len() {
                    lemma_measure_bump(objects, frames, 2);
                }
                lemma_measure_bump(objects, frames, 1);
            }
        }
    }
}


/// One binary-operator step over the operand stack: what `binary_op` does to
/// the stack and what it returns. An exponentiation pushes a value that the
/// supplied power routine can yield on the operands' encodings.
pub open spec fn binop_step<FP: Fn(u64, u64) -> u64, CP: Fn(u64, u64, u64, u64) -> (u64, u64)>(
    operator: Operator,
    fpow: FP,
    cpow: CP,
    st_old: Seq<Value>,
    st_new: Seq<Value>,
    r: Result<(), RuntimeError>,
) -> bool {
    if st_old.len() < 2 {
        r == Err::<(), RuntimeError>(RuntimeError::StackUnderflow) && st_new == st_old
    } else {
        let b = st_old.last();
        let a = st_old.drop_last().last();
        let rest = st_old.drop_last().drop_last();
        if !a.is_numeric() || !b.is_numeric() {
            r == Err::<(), RuntimeError>(RuntimeError::OperandsNotNumbers) && st_new == st_old
        } else if operator == Operator::StarStar {
            if spec_pow_defined(a, b) {
                exists|v: Value|
                    #[trigger] spec_pow_exact(a, b, fpow, cpow, Ok::<Value, RuntimeError>(v)) && (
                    r matches Ok(_)) && st_new == rest.push(v)
            } else {
                r == Err::<(), RuntimeError>(spec_pair_error(a, b))
            }
        } else {
            match spec_operator_value(operator, a, b) {
                Ok(v) => r matches Ok(_) && st_new == rest.push(v),
                Err(e) => r == Err::<(), RuntimeError>(e),
            }
        }
    }
}

/// The `Operator` a binary opcode dispatches through.
fn opcode_operator(op: Op) -> (r: Option<Operator>)
    ensures
        r == spec_opcode_operator(op),
{
    match op {
        Op::Add => Some(Operator::Plus),
        Op::Subtract => Some(Operator::Minus),
        Op::Multiply => Some(Operator::Star),
        Op::Exponent => Some(Operator::StarStar),
        Op::Divide => Some(Operator::Slash),
        Op::IntDivide => Some(Operator::SlashSlash),
        Op::ValueEqual => Some(Operator::EqualEqual),
        Op::NotValueEqual => Some(Operator::NotEqual),
        Op::Less => Some(Operator::Less),
        Op::LessEqual => Some(Operator::LessEqual),
        Op::Greater => Some(Operator::Greater),
        Op::GreaterEqual => Some(Operator::GreaterEqual),
        _ => None,
    }
}

/// The fields of the machine a binary-operator step leaves alone.
pub open spec fn vm_same_but_stack(pre: VM, post: VM) -> bool {
    &&& post.compilers == pre.compilers
    &&& post.globals == pre.globals
    &&& post.strings == pre.strings
    &&& post.frames == pre.frames
    &&& post.frame_count == pre.frame_count
    &&& post.objects == pre.objects
    &&& post.init_string == pre.init_string
}

/// The whole pipeline's relation: what interpreting a source text may yield,
/// with `fin` the machine's operand stack afterwards. Scanning and
/// compilation are deterministic; execution is `run_rel` over the compiled
/// script (a single function of arity zero, called with no arguments on a
/// stack holding only the script object).
pub open spec fn interp_rel<FP: Fn(u64, u64) -> u64, CP: Fn(u64, u64, u64, u64) -> (u64, u64)>(
    fpow: FP,
    cpow: CP,
    src: Seq<char>,
    r: Result<Option<Value>, InterpretError>,
    fin: Seq<Value>,
) -> bool {
    match spec_tokenize_from(src, 0, 0) {
        Err(m) => r == Err::<Option<Value>, InterpretError>(
            InterpretError::Lexical(
                LexicalError { index: m.index as usize, line: m.line as usize },
            ),
        ),
        Ok(ms) => exists|ts: Seq<Token>|
            #[trigger] tokens_model(ts) == ms && match sp_program(src, ts, 0, 0) {
                Err(e) => r == Err::<Option<Value>, InterpretError>(InterpretError::Compile(e)),
                Ok(out) => {
                    let script = FunModel { arity: 0, code: out.code, consts: out.consts };
                    let frame = FrameModel { function: 0, ip: 0, slots: 0 };
                    match r {
                        Ok(v) => run_rel(
                            fpow,
                            cpow,
                            seq![script],
                            seq![Value::Object(0)],
                            seq![frame],
                            Ok(v),
                            fin,
                        ),
                        Err(InterpretError::Runtime(e)) => run_rel(
                            fpow,
                            cpow,
                            seq![script],
                            seq![Value::Object(0)],
                            seq![frame],
                            Err(e),
                            fin,
                        ),
                        _ => false,
                    }
                },
            },
    }
}

/// The virtual machine: the operand stack, the call-frame stack, the
/// function registry it owns, and the tables the current grammar leaves
/// unused (globals, interned strings, nested compilers).
#[derive(Debug)]
pub struct VM {
    pub stack: Vec<Value>,
    pub compilers: Vec<Compiler>,
    pub globals: Vec<(String, Value)>,
    pub strings: Vec<String>,
    pub frames: Vec<CallFrame>,
    pub frame_count: usize,
    pub objects: Vec<ObjFucntion>,
    pub init_string: &'static str,
}

impl VM {
    /// A machine with nothing on any stack and an empty registry.
    pub fn new() -> (r: VM)
        ensures
            r.stack@.len() == 0,
            r.compilers@.len() == 0,
            r.globals@.len() == 0,
            r.strings@.len() == 0,
            r.frames@.len() == 0,
            r.frame_count == 0,
            r.objects@.len() == 0,
    {
        VM {
            stack: Vec::new(),
            compilers: Vec::new(),
            globals: Vec::new(),
            strings: Vec::new(),
            frames: Vec::new(),
            frame_count: 0,
            objects: Vec::new(),
            init_string: "init",
        }
    }

    /// The value `distance` slots below the top of the operand stack.
    fn peek(&self, distance: usize) -> (r: &Value)
        requires
            distance < self.stack@.len(),
        ensures
            *r == self.stack@[self.stack@.len() - 1 - distance],
    {
        &self.stack[self.stack.len() - 1 - distance]
    }

    /// Applies a binary operator to the top two stack values: both must be
    /// numbers; the right operand is popped first, and exactly one result is
    /// pushed.
    pub fn binary_op<FP: Fn(u64, u64) -> u64, CP: Fn(u64, u64, u64, u64) -> (u64, u64)>(
        &mut self,
        operator: Operator,
        fpow: &FP,
        cpow: &CP,
    ) -> (r: Result<(), RuntimeError>)
        requires
            operator.is_binary_op(),
            forall|x: u64, y: u64| fpow.requires((x, y)),
            forall|x: u64, y: u64, z: u64, w: u64| cpow.requires((x, y, z, w)),
        ensures
            vm_same_but_stack(*old(self), *final(self)),
            binop_step(operator, *fpow, *cpow, old(self).stack@, final(self).stack@, r),
    {
        if self.stack.len() < 2 {
            return Err(RuntimeError::StackUnderflow);
        }
        if !(is_number(self.peek(0)) && is_number(self.peek(1))) {
            return Err(RuntimeError::OperandsNotNumbers);
        }
        let b: Value = match self.stack.pop() {
            Some(v) => v,
            None => {
                proof {
                    assert(false);
                }
                Value::Bool(false)
            },
        };
        let a: Value = match self.stack.pop() {
            Some(v) => v,
            None => {
                proof {
                    assert(false);
                }
                Value::Bool(false)
            },
        };
        proof {
            assert(old(self).stack@.drop_last().drop_last() =~= self.stack@);
        }
        match operator.doit(a, b, fpow, cpow) {
            Ok(c) => {
                self.stack.push(c);
                proof {
                    let a0 = old(self).stack@.drop_last().last();
                    let b0 = old(self).stack@.last();
                    let rest = old(self).stack@.drop_last().drop_last();
                    if operator == Operator::StarStar {
                        assert(spec_pow_exact(a0, b0, *fpow, *cpow, Ok::<Value, RuntimeError>(c)));
                        assert(self.stack@ == rest.push(c));
                    }
                }
                Ok(())
            },
            Err(e) => Err(e),
        }
    }

    /// Invokes the function at registry index `function` with `num_args`
    /// supplied arguments: the argument count must equal the callee's
    /// declared arity exactly (checked before any of its bytecode can run),
    /// the frame stack must not be at its fixed maximum depth, and the new
    /// frame's slot base is the current stack length less the arguments and
    /// the callee itself.
    pub fn call(&mut self, function: usize, num_args: u8) -> (r: Result<(), RuntimeError>)
        requires
            function < old(self).objects@.len(),
            old(self).stack@.len() > num_args as int,
            old(self).frame_count == old(self).frames@.len(),
        ensures
            ({
                let arity = old(self).objects@[function as int].arity;
                if num_args != arity {
                    // arity enforcement: the mismatch is fatal before any of
                    // the callee's bytecode executes — the machine is unchanged
                    r == Err::<(), RuntimeError>(
                        RuntimeError::ArityMismatch { expected: arity, got: num_args },
                    ) && *final(self) == *old(self)
                } else if old(self).frames@.len() >= 255 {
                    r == Err::<(), RuntimeError>(RuntimeError::FrameOverflow) && *final(self)
                        == *old(self)
                } else {
                    &&& r matches Ok(_)
                    &&& final(self).frames@ == old(self).frames@.push(
                        CallFrame {
                            function,
                            ip: 0,
                            slots: (old(self).stack@.len() - num_args - 1) as usize,
                        },
                    )
                    &&& final(self).frame_count as int == old(self).frame_count + 1
                    &&& final(self).stack == old(self).stack
                    &&& final(self).objects == old(self).objects
                    &&& final(self).compilers == old(self).compilers
                    &&& final(self).globals == old(self).globals
                    &&& final(self).strings == old(self).strings
                    &&& final(self).init_string == old(self).init_string
                }
            }),
    {
        let arity = self.objects[function].arity;
        if num_args != arity {
            return Err(RuntimeError::ArityMismatch { expected: arity, got: num_args });
        }
        if self.frames.len() >= 255 {
            return Err(RuntimeError::FrameOverflow);
        }
        proof {
            assert(self.stack@.len() > num_args as int);
        }
        let n_args: usize = num_args as usize;
        let slots = self.stack.len() - n_args - 1;
        let frame = CallFrame { function, ip: 0, slots };
        self.frames.push(frame);
        self.frame_count = self.frame_count + 1;
        Ok(())
    }
}


impl VM {
    /// Replaces the active frame with one whose cursor moved forward `k`
    /// units.
    fn bump_ip(&mut self, k: usize)
        requires
            old(self).frames@.len() >= 1,
            old(self).frames@.last().ip + k <= usize::MAX,
        ensures
            final(self).frames@ =~= old(self).frames@.update(
                old(self).frames@.len() - 1,
                CallFrame {
                    function: old(self).frames@.last().function,
                    ip: (old(self).frames@.last().ip + k) as usize,
                    slots: old(self).frames@.last().slots,
                },
            ),
            frames_model(final(self).frames@) =~= bump(frames_model(old(self).frames@), k as int),
            final(self).stack == old(self).stack,
            final(self).objects == old(self).objects,
            final(self).compilers == old(self).compilers,
            final(self).globals == old(self).globals,
            final(self).strings == old(self).strings,
            final(self).frame_count == old(self).frame_count,
            final(self).init_string == old(self).init_string,
    {
        let i = self.frames.len() - 1;
        let fr = self.frames[i];
        let nf = CallFrame { function: fr.function, ip: fr.ip + k, slots: fr.slots };
        match self.frames.pop() {
            Some(_) => {},
            None => {
                proof {
                    assert(false);
                }
            },
        }
        self.frames.push(nf);
        proof {
            assert(final(self).frames@ =~= old(self).frames@.update(i as int, nf));
        }
    }

    /// The fetch-dispatch-execute loop: runs the active frame's chunk to a
    /// result. Everything it may yield is fixed by `run_rel` over the
    /// machine's model; the registry and the unused tables are untouched.
    pub fn run<FP: Fn(u64, u64) -> u64, CP: Fn(u64, u64, u64, u64) -> (u64, u64)>(
        &mut self,
        fpow: &FP,
        cpow: &CP,
    ) -> (r: Result<Option<Value>, RuntimeError>)
        requires
            old(self).frames@.len() >= 1,
            old(self).frame_count == old(self).frames@.len(),
            forall|x: u64, y: u64| fpow.requires((x, y)),
            forall|x: u64, y: u64, z: u64, w: u64| cpow.requires((x, y, z, w)),
        ensures
            run_rel(
                *fpow,
                *cpow,
                funs_model(old(self).objects@),
                old(self).stack@,
                frames_model(old(self).frames@),
                r,
                final(self).stack@,
            ),
            final(self).objects == old(self).objects,
            final(self).compilers == old(self).compilers,
            final(self).globals == old(self).globals,
            final(self).strings == old(self).strings,
            final(self).init_string == old(self).init_string,
    {
        let ghost objs = funs_model(old(self).objects@);
        proof {
            lemma_measure_parts(objs, frames_model(self.frames@));
        }
        loop
            invariant
                self.frames@.len() >= 1,
                self.frame_count == self.frames@.len(),
                self.objects == old(self).objects,
                self.compilers == old(self).compilers,
                self.globals == old(self).globals,
                self.strings == old(self).strings,
                self.init_string == old(self).init_string,
                objs == funs_model(self.objects@),
                frames_measure(objs, frames_model(self.frames@)) >= 0,
                forall|res: Result<Option<Value>, RuntimeError>, fin: Seq<Value>|
                    #[trigger] run_rel(
                        *fpow,
                        *cpow,
                        objs,
                        self.stack@,
                        frames_model(self.frames@),
                        res,
                        fin,
                    ) ==> run_rel(
                        *fpow,
                        *cpow,
                        objs,
                        old(self).stack@,
                        frames_model(old(self).frames@),
                        res,
                        fin,
                    ),
                forall|x: u64, y: u64| fpow.requires((x, y)),
                forall|x: u64, y: u64, z: u64, w: u64| cpow.requires((x, y, z, w)),
            decreases frames_measure(objs, frames_model(self.frames@)),
        {
            let ghost mstack = self.stack@;
            let ghost mframes = frames_model(self.frames@);
            let fidx = self.frames.len() - 1;
            let fr = self.frames[fidx];
            proof {
                assert(mframes.last() == frame_model(fr));
                lemma_measure_parts(objs, mframes);
            }
            proof {
                assert(objs.len() == self.objects@.len());
            }
            if fr.function >= self.objects.len() {
                proof {
                    assert(run_rel(*fpow, *cpow, objs, mstack, mframes, Err(RuntimeError::MalformedBytecode), self.stack@));
                }
                return Err(RuntimeError::MalformedBytecode);
            }
            let code_len = self.objects[fr.function].chunk.codes.len();
            proof {
                assert(objs[fr.function as int] == fun_model(self.objects@[fr.function as int]));
            }
            if fr.ip >= code_len {
                if self.frames.len() == 1 {
                    let result: Option<Value> = if fr.slots < self.stack.len() && self.stack.len()
                        - fr.slots > 1 {
                        Some(self.stack[self.stack.len() - 1])
                    } else {
                        None
                    };
                    proof {
                        assert(self.stack@ == mstack);
                        assert(run_rel(*fpow, *cpow, objs, mstack, mframes, Ok(result),
                            self.stack@));
                    }
                    return Ok(result);
                } else {
                    proof {
                        assert(run_rel(*fpow, *cpow, objs, mstack, mframes, Err(
                            RuntimeError::MalformedBytecode,
                        ), self.stack@));
                    }
                    return Err(RuntimeError::MalformedBytecode);
                }
            }
            let unit = self.objects[fr.function].chunk.codes[fr.ip];
            proof {
                assert(objs[fr.function as int].code[fr.ip as int] == unit);
            }
            match unit {
                BytecodeOp::ConstantIndex(_) => {
                    proof {
                        assert(run_rel(*fpow, *cpow, objs, mstack, mframes, Err(
                            RuntimeError::MalformedBytecode,
                        ), self.stack@));
                    }
                    return Err(RuntimeError::MalformedBytecode);
                },
                BytecodeOp::JumpDistance(_) => {
                    proof {
                        assert(run_rel(*fpow, *cpow, objs, mstack, mframes, Err(
                            RuntimeError::MalformedBytecode,
                        ), self.stack@));
                    }
                    return Err(RuntimeError::MalformedBytecode);
                },
                BytecodeOp::Op(op) => match op {
                    Op::Constant => {
                        if fr.ip + 1 >= code_len {
                            proof {
                                assert(run_rel(*fpow, *cpow, objs, mstack, mframes, Err(
                                    RuntimeError::MalformedBytecode,
                                ), self.stack@));
                            }
                            return Err(RuntimeError::MalformedBytecode);
                        }
                        let operand = self.objects[fr.function].chunk.codes[fr.ip + 1];
                        proof {
                            assert(objs[fr.function as int].code[fr.ip + 1] == operand);
                        }
                        match operand {
                            BytecodeOp::ConstantIndex(x) => {
                                if (x as usize) < self.objects[fr.function].chunk.constants.len() {
                                    let v = self.objects[fr.function].chunk.constants[x as usize];
                                    proof {
                                        assert(objs[fr.function as int].consts[x as int] == v);
                                    }
                                    self.stack.push(v);
                                    proof {
                                        lemma_measure_bump(objs, mframes, 2);
                                    }
                                    self.bump_ip(2);
                                    proof {
                                        assert(self.stack@ == mstack.push(v));
                                        assert(frames_model(self.frames@) == bump(mframes, 2));
                                        assert forall|
                                            res: Result<Option<Value>, RuntimeError>,
                                            fin: Seq<Value>,
                                        |
                                            #[trigger] run_rel(
                                                *fpow,
                                                *cpow,
                                                objs,
                                                self.stack@,
                                                frames_model(self.frames@),
                                                res,
                                                fin,
                                            ) implies run_rel(
                                            *fpow,
                                            *cpow,
                                            objs,
                                            mstack,
                                            mframes,
                                            res,
                                            fin,
                                        ) by {
                                            assert(run_rel(
                                                *fpow,
                                                *cpow,
                                                objs,
                                                mstack,
                                                mframes,
                                                res,
                                                fin,
                                            ) == run_rel(
                                                *fpow,
                                                *cpow,
                                                objs,
                                                mstack.push(v),
                                                bump(mframes, 2),
                                                res,
                                                fin,
                                            ));
                                        }
                                    }
                                } else {
                                    proof {
                                        assert(run_rel(*fpow, *cpow, objs, mstack, mframes, Err(
                                            RuntimeError::MalformedBytecode,
                                        ), self.stack@));
                                    }
                                    return Err(RuntimeError::MalformedBytecode);
                                }
                            },
                            _ => {
                                proof {
                                    assert(run_rel(*fpow, *cpow, objs, mstack, mframes, Err(
                                        RuntimeError::MalformedBytecode,
                                    ), self.stack@));
                                }
                                return Err(RuntimeError::MalformedBytecode);
                            },
                        }
                    },
                    Op::True => {
                        self.stack.push(Value::Bool(true));
                        proof {
                            lemma_measure_bump(objs, mframes, 1);
                        }
                        self.bump_ip(1);
                        proof {
                            assert forall|
                                res: Result<Option<Value>, RuntimeError>,
                                fin: Seq<Value>,
                            |
                                #[trigger] run_rel(
                                    *fpow,
                                    *cpow,
                                    objs,
                                    self.stack@,
                                    frames_model(self.frames@),
                                    res,
                                    fin,
                                ) implies run_rel(*fpow, *cpow, objs, mstack, mframes, res, fin) by {
                                assert(run_rel(*fpow, *cpow, objs, mstack, mframes, res, fin)
                                    == run_rel(
                                    *fpow,
                                    *cpow,
                                    objs,
                                    mstack.push(Value::Bool(true)),
                                    bump(mframes, 1),
                                    res,
                                    fin,
                                ));
                            }
                        }
                    },
                    Op::False => {
                        self.stack.push(Value::Bool(false));
                        proof {
                            lemma_measure_bump(objs, mframes, 1);
                        }
                        self.bump_ip(1);
                        proof {
                            assert forall|
                                res: Result<Option<Value>, RuntimeError>,
                                fin: Seq<Value>,
                            |
                                #[trigger] run_rel(
                                    *fpow,
                                    *cpow,
                                    objs,
                                    self.stack@,
                                    frames_model(self.frames@),
                                    res,
                                    fin,
                                ) implies run_rel(*fpow, *cpow, objs, mstack, mframes, res, fin) by {
                                assert(run_rel(*fpow, *cpow, objs, mstack, mframes, res, fin)
                                    == run_rel(
                                    *fpow,
                                    *cpow,
                                    objs,
                                    mstack.push(Value::Bool(false)),
                                    bump(mframes, 1),
                                    res,
                                    fin,
                                ));
                            }
                        }
                    },
                    Op::Pop => {
                        if self.stack.len() > 0 {
                            match self.stack.pop() {
                                _ => {},
                            }
                            proof {
                                assert(self.stack@ == mstack.drop_last());
                            }
                        }
                        proof {
                            lemma_measure_bump(objs, mframes, 1);
                        }
                        self.bump_ip(1);
                        proof {
                            assert forall|
                                res: Result<Option<Value>, RuntimeError>,
                                fin: Seq<Value>,
                            |
                                #[trigger] run_rel(
                                    *fpow,
                                    *cpow,
                                    objs,
                                    self.stack@,
                                    frames_model(self.frames@),
                                    res,
                                    fin,
                                ) implies run_rel(*fpow, *cpow, objs, mstack, mframes, res, fin) by {
                                assert(run_rel(*fpow, *cpow, objs, mstack, mframes, res, fin)
                                    == run_rel(
                                    *fpow,
                                    *cpow,
                                    objs,
                                    (if mstack.len() > 0 {
                                        mstack.drop_last()
                                    } else {
                                        mstack
                                    }),
                                    bump(mframes, 1),
                                    res,
                                    fin,
                                ));
                            }
                        }
                    },
                    Op::Return => {
                        if self.frames.len() == 1 {
                            // outermost frame: pop the return value and the
                            // callee beneath it, and end the run with it
                            let result: Option<Value> = if self.stack.len() >= 1 {
                                Some(self.stack[self.stack.len() - 1])
                            } else {
                                None
                            };
                            if self.stack.len() >= 1 {
                                match self.stack.pop() {
                                    _ => {},
                                }
                            }
                            if self.stack.len() >= 1 {
                                match self.stack.pop() {
                                    _ => {},
                                }
                            }
                            self.frame_count = self.frame_count - 1;
                            proof {
                                if mstack.len() >= 2 {
                                    assert(self.stack@ =~= mstack.drop_last().drop_last());
                                } else {
                                    assert(self.stack@ =~= Seq::<Value>::empty());
                                }
                                assert(run_rel(*fpow, *cpow, objs, mstack, mframes, Ok(result),
                                    self.stack@));
                            }
                            return Ok(result);
                        } else {
                            match self.frames.pop() {
                                _ => {},
                            }
                            self.frame_count = self.frame_count - 1;
                            proof {
                                assert(frames_model(self.frames@) =~= mframes.drop_last());
                                lemma_measure_parts(objs, mframes);
                                assert forall|
                                    res: Result<Option<Value>, RuntimeError>,
                                    fin: Seq<Value>,
                                |
                                    #[trigger] run_rel(
                                        *fpow,
                                        *cpow,
                                        objs,
                                        self.stack@,
                                        frames_model(self.frames@),
                                        res,
                                        fin,
                                    ) implies run_rel(
                                    *fpow,
                                    *cpow,
                                    objs,
                                    mstack,
                                    mframes,
                                    res,
                                    fin,
                                ) by {
                                    assert(run_rel(*fpow, *cpow, objs, mstack, mframes, res, fin)
                                        == run_rel(
                                        *fpow,
                                        *cpow,
                                        objs,
                                        mstack,
                                        mframes.drop_last(),
                                        res,
                                        fin,
                                    ));
                                }
                            }
                        }
                    },
                    Op::Assert => {
                        if self.stack.len() == 0 {
                            proof {
                                assert(run_rel(*fpow, *cpow, objs, mstack, mframes, Err(
                                    RuntimeError::StackUnderflow,
                                ), self.stack@));
                            }
                            return Err(RuntimeError::StackUnderflow);
                        }
                        let v = match self.stack.pop() {
                            Some(v) => v,
                            None => {
                                proof {
                                    assert(false);
                                }
                                Value::Bool(false)
                            },
                        };
                        if is_truthy(&v) {
                            proof {
                                assert(self.stack@ =~= mstack.drop_last());
                                lemma_measure_bump(objs, mframes, 1);
                            }
                            self.bump_ip(1);
                            proof {
                                assert forall|
                                    res: Result<Option<Value>, RuntimeError>,
                                    fin: Seq<Value>,
                                |
                                    #[trigger] run_rel(
                                        *fpow,
                                        *cpow,
                                        objs,
                                        self.stack@,
                                        frames_model(self.frames@),
                                        res,
                                        fin,
                                    ) implies run_rel(
                                    *fpow,
                                    *cpow,
                                    objs,
                                    mstack,
                                    mframes,
                                    res,
                                    fin,
                                ) by {
                                    assert(run_rel(*fpow, *cpow, objs, mstack, mframes, res, fin)
                                        == run_rel(
                                        *fpow,
                                        *cpow,
                                        objs,
                                        mstack.drop_last(),
                                        bump(mframes, 1),
                                        res,
                                        fin,
                                    ));
                                }
                            }
                        } else {
                            proof {
                                assert(run_rel(*fpow, *cpow, objs, mstack, mframes, Err(
                                    RuntimeError::AssertionFailed,
                                ), self.stack@));
                            }
                            return Err(RuntimeError::AssertionFailed);
                        }
                    },
                    Op::Not | Op::Negative | Op::Noop => {
                        proof {
                            assert(run_rel(*fpow, *cpow, objs, mstack, mframes, Err(
                                RuntimeError::UnsupportedInstruction,
                            ), self.stack@));
                        }
                        return Err(RuntimeError::UnsupportedInstruction);
                    },
                    _ => {
                        let operator = match opcode_operator(op) {
                            Some(operator) => operator,
                            None => {
                                proof {
                                    assert(run_rel(*fpow, *cpow, objs, mstack, mframes, Err(
                                        RuntimeError::MalformedBytecode,
                                    ), self.stack@));
                                }
                                return Err(RuntimeError::MalformedBytecode);
                            },
                        };
                        proof {
                            assert(operator.is_binary_op());
                        }
                        match self.binary_op(operator, fpow, cpow) {
                            Err(e) => {
                                proof {
                                    assert(run_rel(*fpow, *cpow, objs, mstack, mframes, Err(e), self.stack@));
                                }
                                return Err(e);
                            },
                            Ok(()) => {
                                proof {
                                    lemma_measure_bump(objs, mframes, 1);
                                }
                                self.bump_ip(1);
                                proof {
                                    let a = mstack.drop_last().last();
                                    let b = mstack.last();
                                    let rest = mstack.drop_last().drop_last();
                                    if operator == Operator::StarStar {
                                        // the pushed payload is one the power
                                        // routine can yield on these operands
                                        let v = choose|v: Value|
                                            #[trigger] spec_pow_exact(
                                                a,
                                                b,
                                                *fpow,
                                                *cpow,
                                                Ok::<Value, RuntimeError>(v),
                                            ) && self.stack@ == rest.push(v);
                                        assert(spec_pow_exact(
                                            a,
                                            b,
                                            *fpow,
                                            *cpow,
                                            Ok::<Value, RuntimeError>(v),
                                        ) && self.stack@ == rest.push(v));
                                        assert forall|
                                            res: Result<Option<Value>, RuntimeError>,
                                            fin: Seq<Value>,
                                        |
                                            #[trigger] run_rel(
                                                *fpow,
                                                *cpow,
                                                objs,
                                                self.stack@,
                                                frames_model(self.frames@),
                                                res,
                                                fin,
                                            ) implies run_rel(
                                            *fpow,
                                            *cpow,
                                            objs,
                                            mstack,
                                            mframes,
                                            res,
                                            fin,
                                        ) by {
                                            match (a, b) {
                                                (Value::Integer(x), Value::Integer(y)) => {
                                                    let p = choose|p: u64|
                                                        #[trigger] call_ensures(
                                                            *fpow,
                                                            (f64_of_i32(x), f64_of_i32(y)),
                                                            p,
                                                        ) && Ok::<Value, RuntimeError>(v) == Ok::<
                                                            Value,
                                                            RuntimeError,
                                                        >(Value::Float(p));
                                                    assert(v == Value::Float(p));
                                                    assert(run_rel(
                                                        *fpow,
                                                        *cpow,
                                                        objs,
                                                        rest.push(Value::Float(p)),
                                                        bump(mframes, 1),
                                                        res,
                                                        fin,
                                                    ));
                                                },
                                                (Value::Float(xb), Value::Integer(y)) => {
                                                    let p = choose|p: u64|
                                                        #[trigger] call_ensures(
                                                            *fpow,
                                                            (xb, f64_of_i32(y)),
                                                            p,
                                                        ) && Ok::<Value, RuntimeError>(v) == Ok::<
                                                            Value,
                                                            RuntimeError,
                                                        >(Value::Float(p));
                                                    assert(v == Value::Float(p));
                                                    assert(run_rel(
                                                        *fpow,
                                                        *cpow,
                                                        objs,
                                                        rest.push(Value::Float(p)),
                                                        bump(mframes, 1),
                                                        res,
                                                        fin,
                                                    ));
                                                },
                                                (Value::Float(xb), Value::Float(yb)) => {
                                                    let p = choose|p: u64|
                                                        #[trigger] call_ensures(
                                                            *fpow,
                                                            (xb, yb),
                                                            p,
                                                        ) && Ok::<Value, RuntimeError>(v) == Ok::<
                                                            Value,
                                                            RuntimeError,
                                                        >(Value::Float(p));
                                                    assert(v == Value::Float(p));
                                                    assert(run_rel(
                                                        *fpow,
                                                        *cpow,
                                                        objs,
                                                        rest.push(Value::Float(p)),
                                                        bump(mframes, 1),
                                                        res,
                                                        fin,
                                                    ));
                                                },
                                                (Value::Complex(xr, xi), Value::Integer(y)) => {
                                                    let pp = choose|pp: (u64, u64)|
                                                        #[trigger] call_ensures(
                                                            *cpow,
                                                            (xr, xi, f64_of_i32(y), 0u64),
                                                            pp,
                                                        ) && Ok::<Value, RuntimeError>(v) == Ok::<
                                                            Value,
                                                            RuntimeError,
                                                        >(Value::Complex(pp.0, pp.1));
                                                    assert(v == Value::Complex(pp.0, pp.1));
                                                    assert(run_rel(
                                                        *fpow,
                                                        *cpow,
                                                        objs,
                                                        rest.push(Value::Complex(pp.0, pp.1)),
                                                        bump(mframes, 1),
                                                        res,
                                                        fin,
                                                    ));
                                                },
                                                (Value::Complex(xr, xi), Value::Complex(yr, yi)) => {
                                                    let pp = choose|pp: (u64, u64)|
                                                        #[trigger] call_ensures(
                                                            *cpow,
                                                            (xr, xi, yr, yi),
                                                            pp,
                                                        ) && Ok::<Value, RuntimeError>(v) == Ok::<
                                                            Value,
                                                            RuntimeError,
                                                        >(Value::Complex(pp.0, pp.1));
                                                    assert(v == Value::Complex(pp.0, pp.1));
                                                    assert(run_rel(
                                                        *fpow,
                                                        *cpow,
                                                        objs,
                                                        rest.push(Value::Complex(pp.0, pp.1)),
                                                        bump(mframes, 1),
                                                        res,
                                                        fin,
                                                    ));
                                                },
                                                _ => {
                                                    assert(false);
                                                },
                                            }
                                        }
                                    } else {
                                        assert forall|
                                            res: Result<Option<Value>, RuntimeError>,
                                            fin: Seq<Value>,
                                        |
                                            #[trigger] run_rel(
                                                *fpow,
                                                *cpow,
                                                objs,
                                                self.stack@,
                                                frames_model(self.frames@),
                                                res,
                                                fin,
                                            ) implies run_rel(
                                            *fpow,
                                            *cpow,
                                            objs,
                                            mstack,
                                            mframes,
                                            res,
                                            fin,
                                        ) by {
                                            let v = spec_operator_value(operator, a, b)->Ok_0;
                                            assert(run_rel(
                                                *fpow,
                                                *cpow,
                                                objs,
                                                mstack,
                                                mframes,
                                                res,
                                                fin,
                                            ) == run_rel(
                                                *fpow,
                                                *cpow,
                                                objs,
                                                rest.push(v),
                                                bump(mframes, 1),
                                                res,
                                                fin,
                                            ));
                                        }
                                    }
                                }
                            },
                        }
                    },
                },
            }
        }
    }

    /// One whole interpretation: scan, compile, then execute the compiled
    /// script on this (fresh) machine, with the embedder-supplied float and
    /// complex power routines.
    pub fn interpret<FP: Fn(u64, u64) -> u64, CP: Fn(u64, u64, u64, u64) -> (u64, u64)>(
        &mut self,
        source: &str,
        fpow: &FP,
        cpow: &CP,
    ) -> (r: Result<Option<Value>, InterpretError>)
        requires
            old(self).stack@.len() == 0,
            old(self).frames@.len() == 0,
            old(self).objects@.len() == 0,
            old(self).frame_count == 0,
            source@.len() < usize::MAX,
            forall|x: u64, y: u64| fpow.requires((x, y)),
            forall|x: u64, y: u64, z: u64, w: u64| cpow.requires((x, y, z, w)),
        ensures
            interp_rel(*fpow, *cpow, source@, r, final(self).stack@),
    {
        let mut tokenizer = Tokenizer::new(source);
        let tokens = match tokenizer.tokenize() {
            Ok(ts) => ts,
            Err(e) => {
                return Err(InterpretError::Lexical(e));
            },
        };
        let source_chars = crate::token::chars_of(source);
        let compiler = Compiler::new(String::new());
        let mut parser = Parser::new(compiler, tokens, source_chars);
        let ghost ts = parser.tokens@;
        match parser.compile_program() {
            Err(e) => {
                proof {
                    assert(tokens_model(ts) == spec_tokenize_from(source@, 0, 0)->Ok_0);
                }
                return Err(InterpretError::Compile(e));
            },
            Ok(()) => {},
        }
        let ghost out = sp_program(source@, ts, 0, 0)->Ok_0;
        let function = parser.compiler.function;
        proof {
            assert(function.chunk.codes@ =~= out.code);
            assert(function.chunk.constants@ =~= out.consts);
        }
        self.objects.push(function);
        self.stack.push(Value::Object(0));
        match self.call(0, 0) {
            Ok(()) => {},
            Err(_) => {
                proof {
                    assert(false);
                }
                return Err(InterpretError::Runtime(RuntimeError::FrameOverflow));
            },
        }
        proof {
            let script = FunModel { arity: 0, code: out.code, consts: out.consts };
            assert(funs_model(self.objects@) =~= seq![script]);
            assert(frames_model(self.frames@) =~= seq![FrameModel { function: 0, ip: 0, slots: 0 }]);
            assert(self.stack@ =~= seq![Value::Object(0)]);
        }
        let r = self.run(fpow, cpow);
        proof {
            assert(tokens_model(ts) == spec_tokenize_from(source@, 0, 0)->Ok_0);
        }
        match r {
            Ok(v) => Ok(v),
            Err(e) => Err(InterpretError::Runtime(e)),
        }
    }
}

} // verus!
