//! The Pratt parser/compiler: tokens in, bytecode out, no tree between.
//!
//! Each token kind carries an optional prefix action, an optional infix
//! action, and a binding precedence. `parse_precedence` consumes one token
//! and runs its prefix action, then folds infix actions while the coming
//! token binds at least as tightly as asked. Every binary operator —
//! exponentiation included — parses its right operand one level higher, so
//! all of them associate to the left (`2 ** 3 ** 2` is `(2 ** 3) ** 2`).
//!
//! The whole compilation is mirrored by spec functions (`sp_parse_precedence`
//! and companions) that say exactly which units and constants are emitted
//! and where each error arises; the executable parser is proved equal to
//! that mirror.

use vstd::prelude::*;

use crate::chunk::BytecodeOp;
use crate::chunk::Chunk;
use crate::chunk::MAX_CONSTANTS;
use crate::chunk::Op;
use crate::chunk::emit_byte;
use crate::compiler::Compiler;
use crate::float::f64_of_decimal;
use crate::float::float_parse;
use crate::token::Keyword;
use crate::token::Number;
use crate::token::Operator;
use crate::token::Token;
use crate::token::TokenType;
use crate::token::is_digit;
use crate::token::is_digit_char;
use crate::token::is_underscore;
use crate::token::is_underscore_char;
use crate::value::Value;

verus! {

/// Binding precedences, loosest to tightest.
#[derive(Debug, Clone, Copy, PartialEq, Eq, PartialOrd, Ord, Structural)]
pub enum Precedence {
    Lowest,
    Assignment,
    Or,
    And,
    Equality,
    Comparison,
    Term,
    Factor,
    Exponent,
    Unary,
    Call,
    Primary,
}

impl Precedence {
    /// The precedence's place in the order, as a number.
    pub open spec fn spec_level(self) -> int {
        match self {
            Precedence::Lowest => 0,
            Precedence::Assignment => 1,
            Precedence::Or => 2,
            Precedence::And => 3,
            Precedence::Equality => 4,
            Precedence::Comparison => 5,
            Precedence::Term => 6,
            Precedence::Factor => 7,
            Precedence::Exponent => 8,
            Precedence::Unary => 9,
            Precedence::Call => 10,
            Precedence::Primary => 11,
        }
    }

    /// The precedence's place in the order, as a number.
    pub fn level(self) -> (r: u8)
        ensures
            r as int == self.spec_level(),
    {
        match self {
            Precedence::Lowest => 0,
            Precedence::Assignment => 1,
            Precedence::Or => 2,
            Precedence::And => 3,
            Precedence::Equality => 4,
            Precedence::Comparison => 5,
            Precedence::Term => 6,
            Precedence::Factor => 7,
            Precedence::Exponent => 8,
            Precedence::Unary => 9,
            Precedence::Call => 10,
            Precedence::Primary => 11,
        }
    }

    /// The next-tighter precedence (total in spec; `Primary` maps to
    /// itself, and the executable `next` excludes it).
    pub open spec fn spec_next(self) -> Precedence {
        match self {
            Precedence::Lowest => Precedence::Assignment,
            Precedence::Assignment => Precedence::Or,
            Precedence::Or => Precedence::And,
            Precedence::And => Precedence::Equality,
            Precedence::Equality => Precedence::Comparison,
            Precedence::Comparison => Precedence::Term,
            Precedence::Term => Precedence::Factor,
            Precedence::Factor => Precedence::Exponent,
            Precedence::Exponent => Precedence::Unary,
            Precedence::Unary => Precedence::Call,
            Precedence::Call => Precedence::Primary,
            Precedence::Primary => Precedence::Primary,
        }
    }

    /// The next-tighter precedence.
    pub fn next(&self) -> (r: Precedence)
        requires
            *self != Precedence::Primary,
        ensures
            r == self.spec_next(),
    {
        match self {
            Precedence::Lowest => Precedence::Assignment,
            Precedence::Assignment => Precedence::Or,
            Precedence::Or => Precedence::And,
            Precedence::And => Precedence::Equality,
            Precedence::Equality => Precedence::Comparison,
            Precedence::Comparison => Precedence::Term,
            Precedence::Term => Precedence::Factor,
            Precedence::Factor => Precedence::Exponent,
            Precedence::Exponent => Precedence::Unary,
            Precedence::Unary => Precedence::Call,
            Precedence::Call => Precedence::Primary,
            Precedence::Primary => Precedence::Primary,
        }
    }
}

/// The prefix actions a token kind can carry.
#[derive(Debug, Clone, Copy, PartialEq, Eq, Structural)]
pub enum PrefixRule {
    Grouping,
    Unary,
    IntegerLit,
    FloatLit,
    ComplexLit,
}

/// The infix actions a token kind can carry.
#[derive(Debug, Clone, Copy, PartialEq, Eq, Structural)]
pub enum InfixRule {
    Binary,
    CallExpr,
}

/// One row of the dispatch table.
#[derive(Debug, Clone, Copy, PartialEq, Eq, Structural)]
pub struct ParseRule {
    pub prefix: Option<PrefixRule>,
    pub infix: Option<InfixRule>,
    pub precedence: Precedence,
}

/// The dispatch table, as a function over the closed token-kind enumeration.
pub open spec fn spec_rule(tt: TokenType) -> ParseRule {
    match tt {
        TokenType::Operator(Operator::LeftParen) => ParseRule {
            prefix: Some(PrefixRule::Grouping),
            infix: Some(InfixRule::CallExpr),
            precedence: Precedence::Call,
        },
        TokenType::Operator(Operator::Plus) => ParseRule {
            prefix: None,
            infix: Some(InfixRule::Binary),
            precedence: Precedence::Term,
        },
        TokenType::Operator(Operator::Minus) => ParseRule {
            prefix: Some(PrefixRule::Unary),
            infix: Some(InfixRule::Binary),
            precedence: Precedence::Term,
        },
        TokenType::Operator(Operator::Star) => ParseRule {
            prefix: None,
            infix: Some(InfixRule::Binary),
            precedence: Precedence::Factor,
        },
        TokenType::Operator(Operator::Slash) => ParseRule {
            prefix: None,
            infix: Some(InfixRule::Binary),
            precedence: Precedence::Factor,
        },
        TokenType::Operator(Operator::SlashSlash) => ParseRule {
            prefix: None,
            infix: Some(InfixRule::Binary),
            precedence: Precedence::Factor,
        },
        TokenType::Operator(Operator::StarStar) => ParseRule {
            prefix: None,
            infix: Some(InfixRule::Binary),
            precedence: Precedence::Exponent,
        },
        TokenType::Operator(Operator::Greater) => ParseRule {
            prefix: None,
            infix: Some(InfixRule::Binary),
            precedence: Precedence::Comparison,
        },
        TokenType::Operator(Operator::GreaterEqual) => ParseRule {
            prefix: None,
            infix: Some(InfixRule::Binary),
            precedence: Precedence::Comparison,
        },
        TokenType::Operator(Operator::Less) => ParseRule {
            prefix: None,
            infix: Some(InfixRule::Binary),
            precedence: Precedence::Comparison,
        },
        TokenType::Operator(Operator::LessEqual) => ParseRule {
            prefix: None,
            infix: Some(InfixRule::Binary),
            precedence: Precedence::Comparison,
        },
        TokenType::Operator(Operator::EqualEqual) => ParseRule {
            prefix: None,
            infix: Some(InfixRule::Binary),
            precedence: Precedence::Equality,
        },
        TokenType::Operator(Operator::NotEqual) => ParseRule {
            prefix: None,
            infix: Some(InfixRule::Binary),
            precedence: Precedence::Equality,
        },
        TokenType::Number(Number::Integer) => ParseRule {
            prefix: Some(PrefixRule::IntegerLit),
            infix: None,
            precedence: Precedence::Lowest,
        },
        TokenType::Number(Number::Float) => ParseRule {
            prefix: Some(PrefixRule::FloatLit),
            infix: None,
            precedence: Precedence::Lowest,
        },
        TokenType::Number(Number::Complex) => ParseRule {
            prefix: Some(PrefixRule::ComplexLit),
            infix: None,
            precedence: Precedence::Lowest,
        },
        _ => ParseRule { prefix: None, infix: None, precedence: Precedence::Lowest },
    }
}

impl ParseRule {
    /// The dispatch-table row of a token kind.
    pub fn of(tt: TokenType) -> (r: ParseRule)
        ensures
            r == spec_rule(tt),
    {
        match tt {
            TokenType::Operator(Operator::LeftParen) => ParseRule {
                prefix: Some(PrefixRule::Grouping),
                infix: Some(InfixRule::CallExpr),
                precedence: Precedence::Call,
            },
            TokenType::Operator(Operator::Plus) => ParseRule {
                prefix: None,
                infix: Some(InfixRule::Binary),
                precedence: Precedence::Term,
            },
            TokenType::Operator(Operator::Minus) => ParseRule {
                prefix: Some(PrefixRule::Unary),
                infix: Some(InfixRule::Binary),
                precedence: Precedence::Term,
            },
            TokenType::Operator(Operator::Star) => ParseRule {
                prefix: None,
                infix: Some(InfixRule::Binary),
                precedence: Precedence::Factor,
            },
            TokenType::Operator(Operator::Slash) => ParseRule {
                prefix: None,
                infix: Some(InfixRule::Binary),
                precedence: Precedence::Factor,
            },
            TokenType::Operator(Operator::SlashSlash) => ParseRule {
                prefix: None,
                infix: Some(InfixRule::Binary),
                precedence: Precedence::Factor,
            },
            TokenType::Operator(Operator::StarStar) => ParseRule {
                prefix: None,
                infix: Some(InfixRule::Binary),
                precedence: Precedence::Exponent,
            },
            TokenType::Operator(Operator::Greater) => ParseRule {
                prefix: None,
                infix: Some(InfixRule::Binary),
                precedence: Precedence::Comparison,
            },
            TokenType::Operator(Operator::GreaterEqual) => ParseRule {
                prefix: None,
                infix: Some(InfixRule::Binary),
                precedence: Precedence::Comparison,
            },
            TokenType::Operator(Operator::Less) => ParseRule {
                prefix: None,
                infix: Some(InfixRule::Binary),
                precedence: Precedence::Comparison,
            },
            TokenType::Operator(Operator::LessEqual) => ParseRule {
                prefix: None,
                infix: Some(InfixRule::Binary),
                precedence: Precedence::Comparison,
            },
            TokenType::Operator(Operator::EqualEqual) => ParseRule {
                prefix: None,
                infix: Some(InfixRule::Binary),
                precedence: Precedence::Equality,
            },
            TokenType::Operator(Operator::NotEqual) => ParseRule {
                prefix: None,
                infix: Some(InfixRule::Binary),
                precedence: Precedence::Equality,
            },
            TokenType::Number(Number::Integer) => ParseRule {
                prefix: Some(PrefixRule::IntegerLit),
                infix: None,
                precedence: Precedence::Lowest,
            },
            TokenType::Number(Number::Float) => ParseRule {
                prefix: Some(PrefixRule::FloatLit),
                infix: None,
                precedence: Precedence::Lowest,
            },
            TokenType::Number(Number::Complex) => ParseRule {
                prefix: Some(PrefixRule::ComplexLit),
                infix: None,
                precedence: Precedence::Lowest,
            },
            _ => ParseRule { prefix: None, infix: None, precedence: Precedence::Lowest },
        }
    }
}

/// The bytecode operation a binary-operator token compiles to.
pub open spec fn spec_binary_opcode(tt: TokenType) -> Option<Op> {
    match tt {
        TokenType::Operator(Operator::Plus) => Some(Op::Add),
        TokenType::Operator(Operator::Minus) => Some(Op::Subtract),
        TokenType::Operator(Operator::Star) => Some(Op::Multiply),
        TokenType::Operator(Operator::Slash) => Some(Op::Divide),
        TokenType::Operator(Operator::StarStar) => Some(Op::Exponent),
        TokenType::Operator(Operator::SlashSlash) => Some(Op::IntDivide),
        TokenType::Operator(Operator::Less) => Some(Op::Less),
        TokenType::Operator(Operator::LessEqual) => Some(Op::LessEqual),
        TokenType::Operator(Operator::Greater) => Some(Op::Greater),
        TokenType::Operator(Operator::GreaterEqual) => Some(Op::GreaterEqual),
        TokenType::Operator(Operator::EqualEqual) => Some(Op::ValueEqual),
        TokenType::Operator(Operator::NotEqual) => Some(Op::NotValueEqual),
        _ => None,
    }
}

/// A fatal compile error, each carrying the offending source line.
/// `MissingInfixRule` and `UnknownBinaryOperator` mirror dispatch arms that
/// the current rule table can never reach.
#[derive(Debug, Clone, Copy, PartialEq, Eq, Structural)]
pub enum CompileError {
    /// A token with no prefix rule stood in expression position.
    UnexpectedExpressionToken { line: usize },
    /// A token bound in infix position but carries no infix rule.
    MissingInfixRule { line: usize },
    /// The binary action was invoked on a non-operator token.
    UnknownBinaryOperator { line: usize },
    /// A construct the compiler recognises but does not support: unary
    /// minus, or call syntax.
    UnsupportedExpression { line: usize },
    /// A group was opened and its closing parenthesis never came.
    UnterminatedGrouping { line: usize },
    /// An `=` followed a completed expression.
    InvalidAssignmentTarget { line: usize },
    /// The chunk's constant pool is full.
    ConstantPoolOverflow { line: usize },
    /// A numeric literal that cannot be turned into a value: an integer
    /// lexeme with non-digit characters or a value beyond the 32-bit range,
    /// or a float lexeme the decimal parser refuses.
    InvalidNumericLiteral { line: usize },
}

/// What one parsing step emits: the token index it leaves off at, the
/// bytecode units and line entries it appends, and the constants it adds.
pub ghost struct ParseOut {
    pub next: int,
    pub code: Seq<BytecodeOp>,
    pub lines: Seq<u16>,
    pub consts: Seq<Value>,
}

/// The token at `i`, or a synthesized end-of-input token past the end (the
/// scanner appends no end marker, so the parser synthesizes one).
pub open spec fn tok_at(toks: Seq<Token>, i: int) -> Token {
    if 0 <= i < toks.len() {
        toks[i]
    } else {
        Token { tokentype: TokenType::Eof, start: 0, length: 0, line: 0 }
    }
}

/// The index after consuming one token (the cursor never passes the end).
pub open spec fn adv(toks: Seq<Token>, i: int) -> int {
    if 0 <= i < toks.len() {
        i + 1
    } else {
        i
    }
}

/// `nxt` forced into `(lo, n]` — a definedness guard for the mirror's
/// recursion; parsing always moves forward, so the guard never bites.
pub open spec fn step_idx(nxt: int, lo: int, n: int) -> int {
    if nxt <= lo {
        lo + 1
    } else if nxt > n {
        n
    } else {
        nxt
    }
}

/// A source line squeezed into the chunk's 16-bit line table.
pub open spec fn spec_line16(line: usize) -> u16 {
    (line % 0x10000) as u16
}

/// The lexeme characters a number token covers: its recorded span less the
/// final delimiter character the scan counted (empty if the token does not
/// fit the source).
pub open spec fn lexeme_chars(src: Seq<char>, t: Token) -> Seq<char> {
    if t.length >= 1 && t.start + t.length - 1 <= src.len() {
        src.subrange(t.start as int, t.start + t.length - 1)
    } else {
        Seq::empty()
    }
}

/// The characters of `s` with every underscore removed (digit separators
/// are accepted positionally and dropped).
pub open spec fn strip_underscores(s: Seq<char>) -> Seq<char>
    decreases s.len(),
{
    if s.len() == 0 {
        Seq::empty()
    } else if is_underscore_char(s.last()) {
        strip_underscores(s.drop_last())
    } else {
        strip_underscores(s.drop_last()).push(s.last())
    }
}

/// Whether every character is a decimal digit.
pub open spec fn all_digits(s: Seq<char>) -> bool {
    forall|k: int| 0 <= k < s.len() ==> is_digit_char(#[trigger] s[k])
}

/// The numeric value of a digit character.
pub open spec fn digit_of(c: char) -> int {
    c as int - '0' as int
}

/// The value of a decimal digit string.
pub open spec fn digits_value(s: Seq<char>) -> int
    decreases s.len(),
{
    if s.len() == 0 {
        0
    } else {
        digits_value(s.drop_last()) * 10 + digit_of(s.last())
    }
}

/// A digit string's value is nonnegative.
proof fn lemma_digits_nonneg(s: Seq<char>)
    requires
        all_digits(s),
    ensures
        digits_value(s) >= 0,
    decreases s.len(),
{
    if s.len() > 0 {
        lemma_digits_nonneg(s.drop_last());
    }
}

/// Extending a digit string never shrinks its value.
proof fn lemma_digits_prefix(s: Seq<char>, k: int)
    requires
        all_digits(s),
        0 <= k <= s.len(),
    ensures
        digits_value(s.take(k)) <= digits_value(s),
    decreases s.len() - k,
{
    if k < s.len() {
        lemma_digits_prefix(s, k + 1);
        let t = s.take(k + 1);
        assert(t.drop_last() =~= s.take(k));
        assert(all_digits(s.take(k)));
        lemma_digits_nonneg(s.take(k));
        assert(digits_value(t) == digits_value(s.take(k)) * 10 + digit_of(s[k]));
    } else {
        assert(s.take(k) =~= s);
    }
}

/// What compiling an integer literal yields: the value of its digits (after
/// dropping underscores), rejected when any non-digit remains or the value
/// leaves the 32-bit range.
pub open spec fn sp_integer_value(src: Seq<char>, t: Token) -> Result<i32, CompileError> {
    let ds = strip_underscores(lexeme_chars(src, t));
    if ds.len() > 0 && all_digits(ds) && digits_value(ds) <= i32::MAX {
        Ok(digits_value(ds) as i32)
    } else {
        Err(CompileError::InvalidNumericLiteral { line: t.line })
    }
}

/// What compiling a float literal yields: the correctly rounded double of
/// its lexeme (underscores dropped), rejected when the decimal parser is.
pub open spec fn sp_float_value(src: Seq<char>, t: Token) -> Result<u64, CompileError> {
    match f64_of_decimal(strip_underscores(lexeme_chars(src, t))) {
        Some(bits) => Ok(bits),
        None => Err(CompileError::InvalidNumericLiteral { line: t.line }),
    }
}

/// What compiling a complex literal yields: the double of its lexeme with
/// the trailing `j`/`J` removed — the imaginary component; the real
/// component is zero.
pub open spec fn sp_complex_value(src: Seq<char>, t: Token) -> Result<u64, CompileError> {
    let lx = lexeme_chars(src, t);
    let core = if lx.len() > 0 && (lx.last() == 'j' || lx.last() == 'J') {
        lx.drop_last()
    } else {
        lx
    };
    match f64_of_decimal(strip_underscores(core)) {
        Some(bits) => Ok(bits),
        None => Err(CompileError::InvalidNumericLiteral { line: t.line }),
    }
}

/// The emission of one literal constant: a `Constant` opcode and the pool
/// index the value lands at, refused when the pool is full.
pub open spec fn sp_emit_constant(v: Value, t: Token, i: int, toks: Seq<Token>, pool: int) -> Result<
    ParseOut,
    CompileError,
> {
    if pool >= MAX_CONSTANTS {
        Err(CompileError::ConstantPoolOverflow { line: t.line })
    } else {
        Ok(
            ParseOut {
                next: adv(toks, i),
                code: seq![BytecodeOp::Op(Op::Constant), BytecodeOp::ConstantIndex(pool as u8)],
                lines: seq![spec_line16(t.line), spec_line16(t.line)],
                consts: seq![v],
            },
        )
    }
}

/// The prefix step's mirror: consuming the token at `i` and running its
/// prefix action, with `pool` constants already in the chunk.
pub open spec fn sp_prefix(src: Seq<char>, toks: Seq<Token>, i: int, pool: int) -> Result<
    ParseOut,
    CompileError,
>
    decreases toks.len() - i, 1int,
    when 0 <= i <= toks.len()
{
    let t = tok_at(toks, i);
    match spec_rule(t.tokentype).prefix {
        None => Err(CompileError::UnexpectedExpressionToken { line: t.line }),
        Some(PrefixRule::Unary) => Err(CompileError::UnsupportedExpression { line: t.line }),
        Some(PrefixRule::Grouping) => {
            if i < toks.len() {
                match sp_parse_precedence(
                    src,
                    toks,
                    i + 1,
                    Precedence::Assignment.spec_level(),
                    pool,
                ) {
                    Ok(r1) => {
                        let n1 = step_idx(r1.next, i, toks.len() as int);
                        if tok_at(toks, n1).tokentype == TokenType::Operator(
                            Operator::RightParen,
                        ) {
                            Ok(
                                ParseOut {
                                    next: adv(toks, n1),
                                    code: r1.code,
                                    lines: r1.lines,
                                    consts: r1.consts,
                                },
                            )
                        } else {
                            Err(
                                CompileError::UnterminatedGrouping {
                                    line: tok_at(toks, n1).line,
                                },
                            )
                        }
                    },
                    Err(e) => Err(e),
                }
            } else {
                Err(CompileError::UnexpectedExpressionToken { line: t.line })
            }
        },
        Some(PrefixRule::IntegerLit) => {
            match sp_integer_value(src, t) {
                Ok(v) => sp_emit_constant(Value::Integer(v), t, i, toks, pool),
                Err(e) => Err(e),
            }
        },
        Some(PrefixRule::FloatLit) => {
            match sp_float_value(src, t) {
                Ok(bits) => sp_emit_constant(Value::Float(bits), t, i, toks, pool),
                Err(e) => Err(e),
            }
        },
        Some(PrefixRule::ComplexLit) => {
            match sp_complex_value(src, t) {
                Ok(bits) => sp_emit_constant(Value::Complex(0, bits), t, i, toks, pool),
                Err(e) => Err(e),
            }
        },
    }
}

/// The Pratt engine's mirror: the prefix step for the token at `i`, then
/// the infix fold at `minlvl`, then the assignment-target check. Yields
/// exactly what is emitted, or the error that aborts compilation.
pub open spec fn sp_parse_precedence(
    src: Seq<char>,
    toks: Seq<Token>,
    i: int,
    minlvl: int,
    pool: int,
) -> Result<ParseOut, CompileError>
    decreases toks.len() - i, 2int,
    when 0 <= i <= toks.len()
{
    let assignable = minlvl <= Precedence::Assignment.spec_level();
    match sp_prefix(src, toks, i, pool) {
        Ok(r0) => {
            let n0 = if i < toks.len() {
                step_idx(r0.next, i, toks.len() as int)
            } else {
                i
            };
            match sp_infix_loop(src, toks, n0, minlvl, pool + r0.consts.len()) {
                Ok(r1) => {
                    if assignable && tok_at(toks, r1.next).tokentype == TokenType::Operator(
                        Operator::Equal,
                    ) {
                        Err(
                            CompileError::InvalidAssignmentTarget {
                                line: tok_at(toks, r1.next).line,
                            },
                        )
                    } else {
                        Ok(
                            ParseOut {
                                next: r1.next,
                                code: r0.code + r1.code,
                                lines: r0.lines + r1.lines,
                                consts: r0.consts + r1.consts,
                            },
                        )
                    }
                },
                Err(e) => Err(e),
            }
        },
        Err(e) => Err(e),
    }
}

/// The infix fold's mirror: while the token at `j` binds at least at
/// `minlvl`, consume it, parse its right operand one level tighter, and
/// emit its opcode.
pub open spec fn sp_infix_loop(
    src: Seq<char>,
    toks: Seq<Token>,
    j: int,
    minlvl: int,
    pool: int,
) -> Result<ParseOut, CompileError>
    decreases toks.len() - j, 1int,
    when 0 <= j <= toks.len()
{
    let t = tok_at(toks, j);
    let rule = spec_rule(t.tokentype);
    if rule.precedence.spec_level() >= minlvl && j < toks.len() {
        match rule.infix {
            None => Err(CompileError::MissingInfixRule { line: t.line }),
            Some(InfixRule::CallExpr) => Err(
                CompileError::UnsupportedExpression { line: t.line },
            ),
            Some(InfixRule::Binary) => {
                match sp_parse_precedence(
                    src,
                    toks,
                    j + 1,
                    rule.precedence.spec_next().spec_level(),
                    pool,
                ) {
                    Ok(r1) => {
                        match spec_binary_opcode(t.tokentype) {
                            Some(op) => {
                                let nxt = step_idx(r1.next, j, toks.len() as int);
                                match sp_infix_loop(
                                    src,
                                    toks,
                                    nxt,
                                    minlvl,
                                    pool + r1.consts.len(),
                                ) {
                                    Ok(r2) => Ok(
                                        ParseOut {
                                            next: r2.next,
                                            code: r1.code + seq![BytecodeOp::Op(op)] + r2.code,
                                            lines: r1.lines + seq![spec_line16(t.line)]
                                                + r2.lines,
                                            consts: r1.consts + r2.consts,
                                        },
                                    ),
                                    Err(e) => Err(e),
                                }
                            },
                            None => Err(CompileError::UnknownBinaryOperator { line: t.line }),
                        }
                    },
                    Err(e) => Err(e),
                }
            },
        }
    } else {
        Ok(ParseOut { next: j, code: Seq::empty(), lines: Seq::empty(), consts: Seq::empty() })
    }
}

/// One statement's mirror: `assert <expr>` emits the expression then an
/// `Assert` opcode carrying the line of the expression's last token; any
/// other statement is a bare expression (whose value stays on the stack —
/// no clearing opcode is emitted).
pub open spec fn sp_statement(src: Seq<char>, toks: Seq<Token>, i: int, pool: int) -> Result<
    ParseOut,
    CompileError,
>
    decreases toks.len() - i, 3int,
    when 0 <= i <= toks.len()
{
    if tok_at(toks, i).tokentype == TokenType::Keyword(Keyword::Assert) && i < toks.len() {
        match sp_parse_precedence(
            src,
            toks,
            i + 1,
            Precedence::Assignment.spec_level(),
            pool,
        ) {
            Ok(r1) => {
                let line = tok_at(toks, r1.next - 1).line;
                Ok(
                    ParseOut {
                        next: r1.next,
                        code: r1.code + seq![BytecodeOp::Op(Op::Assert)],
                        lines: r1.lines + seq![spec_line16(line)],
                        consts: r1.consts,
                    },
                )
            },
            Err(e) => Err(e),
        }
    } else {
        sp_parse_precedence(src, toks, i, Precedence::Assignment.spec_level(), pool)
    }
}

/// A program's mirror: statements until the tokens run out.
pub open spec fn sp_program(src: Seq<char>, toks: Seq<Token>, i: int, pool: int) -> Result<
    ParseOut,
    CompileError,
>
    decreases toks.len() - i, 4int,
    when 0 <= i <= toks.len()
{
    if i >= toks.len() {
        Ok(ParseOut { next: i, code: Seq::empty(), lines: Seq::empty(), consts: Seq::empty() })
    } else {
        match sp_statement(src, toks, i, pool) {
            Ok(r1) => {
                let nxt = step_idx(r1.next, i, toks.len() as int);
                match sp_program(src, toks, nxt, pool + r1.consts.len()) {
                    Ok(r2) => Ok(
                        ParseOut {
                            next: r2.next,
                            code: r1.code + r2.code,
                            lines: r1.lines + r2.lines,
                            consts: r1.consts + r2.consts,
                        },
                    ),
                    Err(e) => Err(e),
                }
            },
            Err(e) => Err(e),
        }
    }
}


/// The parser's fields that compilation never changes: the token stream, the
/// source characters, and everything of the compiler but its chunk.
pub open spec fn same_frame(pre: Parser, post: Parser) -> bool {
    &&& post.tokens == pre.tokens
    &&& post.source == pre.source
    &&& post.compiler.functype == pre.compiler.functype
    &&& post.compiler.scope_depth == pre.compiler.scope_depth
    &&& post.compiler.locals == pre.compiler.locals
    &&& post.compiler.function.obj == pre.compiler.function.obj
    &&& post.compiler.function.arity == pre.compiler.function.arity
    &&& post.compiler.function.name == pre.compiler.function.name
}

/// The chunk grew by exactly what `out` says.
pub open spec fn chunk_extended(pre: Parser, post: Parser, out: ParseOut) -> bool {
    &&& post.compiler.function.chunk.codes@ == pre.compiler.function.chunk.codes@ + out.code
    &&& post.compiler.function.chunk.lines@ == pre.compiler.function.chunk.lines@ + out.lines
    &&& post.compiler.function.chunk.constants@ == pre.compiler.function.chunk.constants@
        + out.consts
}

/// The number of constants already in the chunk being built.
pub open spec fn pool_of(p: Parser) -> int {
    p.compiler.function.chunk.constants@.len() as int
}

/// Compilation only ever appends: on every path, success or error, the old
/// instruction stream, line table and constant pool are prefixes of the new.
pub open spec fn chunk_grows(pre: Parser, post: Parser) -> bool {
    &&& pre.compiler.function.chunk.codes@.is_prefix_of(post.compiler.function.chunk.codes@)
    &&& pre.compiler.function.chunk.lines@.is_prefix_of(post.compiler.function.chunk.lines@)
    &&& pre.compiler.function.chunk.constants@.is_prefix_of(
        post.compiler.function.chunk.constants@,
    )
}

/// The chunk holds exactly what it held before.
pub open spec fn chunk_unchanged(pre: Parser, post: Parser) -> bool {
    &&& post.compiler.function.chunk.codes@ == pre.compiler.function.chunk.codes@
    &&& post.compiler.function.chunk.lines@ == pre.compiler.function.chunk.lines@
    &&& post.compiler.function.chunk.constants@ == pre.compiler.function.chunk.constants@
}

/// A sequence is a prefix of itself extended.
proof fn lemma_append_prefix<T>(a: Seq<T>, b: Seq<T>)
    ensures
        a.is_prefix_of(a + b),
{
    assert(a =~= (a + b).subrange(0, a.len() as int));
}

/// What only grew, grew.
proof fn lemma_extended_grows(pre: Parser, post: Parser, out: ParseOut)
    requires
        chunk_extended(pre, post, out),
    ensures
        chunk_grows(pre, post),
{
    lemma_append_prefix(pre.compiler.function.chunk.codes@, out.code);
    lemma_append_prefix(pre.compiler.function.chunk.lines@, out.lines);
    lemma_append_prefix(pre.compiler.function.chunk.constants@, out.consts);
}

/// What did not change, grew (by nothing).
proof fn lemma_unchanged_grows(pre: Parser, post: Parser)
    requires
        chunk_unchanged(pre, post),
    ensures
        chunk_grows(pre, post),
{
    assert(pre.compiler.function.chunk.codes@ =~= post.compiler.function.chunk.codes@.subrange(
        0,
        pre.compiler.function.chunk.codes@.len() as int,
    ));
    assert(pre.compiler.function.chunk.lines@ =~= post.compiler.function.chunk.lines@.subrange(
        0,
        pre.compiler.function.chunk.lines@.len() as int,
    ));
    assert(pre.compiler.function.chunk.constants@
        =~= post.compiler.function.chunk.constants@.subrange(
        0,
        pre.compiler.function.chunk.constants@.len() as int,
    ));
}

/// Growth composed from a mid-compilation snapshot: the old chunk extended
/// by some emission is a take-prefix of the final chunk, so the old chunk is
/// a prefix of the final one.
proof fn lemma_grows_from_snapshots(
    pre: Parser,
    post: Parser,
    c0: Seq<BytecodeOp>,
    l0: Seq<u16>,
    k0: Seq<Value>,
    dc: Seq<BytecodeOp>,
    dl: Seq<u16>,
    dk: Seq<Value>,
)
    requires
        c0 == pre.compiler.function.chunk.codes@ + dc,
        l0 == pre.compiler.function.chunk.lines@ + dl,
        k0 == pre.compiler.function.chunk.constants@ + dk,
        c0.len() <= post.compiler.function.chunk.codes@.len(),
        post.compiler.function.chunk.codes@.take(c0.len() as int) == c0,
        l0.len() <= post.compiler.function.chunk.lines@.len(),
        post.compiler.function.chunk.lines@.take(l0.len() as int) == l0,
        k0.len() <= post.compiler.function.chunk.constants@.len(),
        post.compiler.function.chunk.constants@.take(k0.len() as int) == k0,
    ensures
        chunk_grows(pre, post),
{
    assert(pre.compiler.function.chunk.codes@ =~= post.compiler.function.chunk.codes@.subrange(
        0,
        pre.compiler.function.chunk.codes@.len() as int,
    ));
    assert(pre.compiler.function.chunk.lines@ =~= post.compiler.function.chunk.lines@.subrange(
        0,
        pre.compiler.function.chunk.lines@.len() as int,
    ));
    assert(pre.compiler.function.chunk.constants@
        =~= post.compiler.function.chunk.constants@.subrange(
        0,
        pre.compiler.function.chunk.constants@.len() as int,
    ));
}

/// Chunk growth composes.
proof fn lemma_grows_trans(a: Parser, b: Parser, c: Parser)
    requires
        chunk_grows(a, b),
        chunk_grows(b, c),
    ensures
        chunk_grows(a, c),
{
    assert(a.compiler.function.chunk.codes@ =~= c.compiler.function.chunk.codes@.subrange(
        0,
        a.compiler.function.chunk.codes@.len() as int,
    ));
    assert(a.compiler.function.chunk.lines@ =~= c.compiler.function.chunk.lines@.subrange(
        0,
        a.compiler.function.chunk.lines@.len() as int,
    ));
    assert(a.compiler.function.chunk.constants@ =~= c.compiler.function.chunk.constants@.subrange(
        0,
        a.compiler.function.chunk.constants@.len() as int,
    ));
}

/// The Pratt parser: walks the token stream and emits bytecode into the
/// compiler's function object.
#[derive(Debug)]
pub struct Parser {
    pub compiler: Compiler,
    pub tokens: Vec<Token>,
    pub source: Vec<char>,
    pub current_index: usize,
}

impl Parser {
    /// A parser over `tokens`, emitting into `compiler`, with the source
    /// characters at hand for reading literal lexemes.
    pub fn new(compiler: Compiler, tokens: Vec<Token>, source: Vec<char>) -> (r: Parser)
        ensures
            r.compiler == compiler,
            r.tokens == tokens,
            r.source == source,
            r.current_index == 0,
    {
        Parser { compiler, tokens, source, current_index: 0 }
    }

    /// The token at the cursor (end-of-input synthesized past the end).
    fn current(&self) -> (t: Token)
        ensures
            t == tok_at(self.tokens@, self.current_index as int),
    {
        if self.current_index < self.tokens.len() {
            self.tokens[self.current_index]
        } else {
            Token { tokentype: TokenType::Eof, start: 0, length: 0, line: 0 }
        }
    }

    /// The most recently consumed token.
    fn previous(&self) -> (t: Token)
        requires
            1 <= self.current_index <= self.tokens@.len(),
        ensures
            t == self.tokens@[self.current_index - 1],
    {
        self.tokens[self.current_index - 1]
    }

    /// Whether the cursor's token has the given kind.
    fn check(&self, tokentype: TokenType) -> (r: bool)
        ensures
            r == (tok_at(self.tokens@, self.current_index as int).tokentype == tokentype),
    {
        self.current().tokentype == tokentype
    }

    /// Moves the cursor one token forward (never past the end).
    fn advance(&mut self)
        ensures
            final(self).current_index as int == adv(old(self).tokens@, old(self).current_index as int),
            *final(self) == (Parser { current_index: final(self).current_index, ..*old(self) }),
    {
        if self.current_index < self.tokens.len() {
            self.current_index = self.current_index + 1;
        }
    }

    /// Consumes the cursor's token when it has the given kind.
    fn match_tokentype(&mut self, tokentype: TokenType) -> (r: bool)
        ensures
            r == (tok_at(old(self).tokens@, old(self).current_index as int).tokentype
                == tokentype),
            final(self).current_index as int == (if r {
                adv(old(self).tokens@, old(self).current_index as int)
            } else {
                old(self).current_index as int
            }),
            *final(self) == (Parser { current_index: final(self).current_index, ..*old(self) }),
    {
        let m = self.check(tokentype);
        if m {
            self.advance();
        }
        m
    }

    /// Consumes the cursor's token when it has the given kind, failing with
    /// `err` otherwise.
    fn consume(&mut self, tokentype: TokenType, err: CompileError) -> (r: Result<
        (),
        CompileError,
    >)
        ensures
            r matches Ok(_) <==> tok_at(old(self).tokens@, old(self).current_index as int).tokentype
                == tokentype,
            r matches Err(e) ==> e == err,
            final(self).current_index as int == (if r is Ok {
                adv(old(self).tokens@, old(self).current_index as int)
            } else {
                old(self).current_index as int
            }),
            *final(self) == (Parser { current_index: final(self).current_index, ..*old(self) }),
    {
        if self.match_tokentype(tokentype) {
            Ok(())
        } else {
            Err(err)
        }
    }

    /// Appends one bytecode unit with its line.
    fn emit(&mut self, code: BytecodeOp, line: usize)
        ensures
            same_frame(*old(self), *final(self)),
            final(self).current_index == old(self).current_index,
            chunk_extended(
                *old(self),
                *final(self),
                ParseOut {
                    next: 0,
                    code: seq![code],
                    lines: seq![spec_line16(line)],
                    consts: Seq::empty(),
                },
            ),
    {
        let l16: u16 = (line % 0x10000) as u16;
        emit_byte(&mut self.compiler.function.chunk, code, l16);
        proof {
            assert(old(self).compiler.function.chunk.codes@.push(code)
                =~= old(self).compiler.function.chunk.codes@ + seq![code]);
            assert(old(self).compiler.function.chunk.lines@.push(spec_line16(line))
                =~= old(self).compiler.function.chunk.lines@ + seq![spec_line16(line)]);
            assert(old(self).compiler.function.chunk.constants@
                =~= old(self).compiler.function.chunk.constants@ + Seq::<Value>::empty());
        }
    }

    /// Appends `v` to the constant pool and emits the `Constant` opcode with
    /// its index, failing when the pool is full. The cursor does not move.
    fn emit_constant(&mut self, v: Value, t: Token) -> (r: Result<(), CompileError>)
        ensures
            same_frame(*old(self), *final(self)),
            final(self).current_index == old(self).current_index,
            match sp_emit_constant(
                v,
                t,
                old(self).current_index as int - 1,
                old(self).tokens@,
                pool_of(*old(self)),
            ) {
                Ok(out) => r matches Ok(_) && chunk_extended(*old(self), *final(self), out),
                Err(e) => r == Err::<(), CompileError>(e) && chunk_unchanged(
                    *old(self),
                    *final(self),
                ),
            },
    {
        match self.compiler.function.chunk.add_constant(v) {
            None => Err(CompileError::ConstantPoolOverflow { line: t.line }),
            Some(ix) => {
                let ghost mid = *self;
                self.emit(BytecodeOp::Op(Op::Constant), t.line);
                self.emit(BytecodeOp::ConstantIndex(ix), t.line);
                proof {
                    let pre = *old(self);
                    let c0 = pre.compiler.function.chunk.codes@;
                    let l0 = pre.compiler.function.chunk.lines@;
                    let k0 = pre.compiler.function.chunk.constants@;
                    assert(self.compiler.function.chunk.codes@ =~= c0 + seq![
                        BytecodeOp::Op(Op::Constant),
                        BytecodeOp::ConstantIndex(ix),
                    ]);
                    assert(self.compiler.function.chunk.lines@ =~= l0 + seq![
                        spec_line16(t.line),
                        spec_line16(t.line),
                    ]);
                    assert(self.compiler.function.chunk.constants@ =~= k0 + seq![v]);
                }
                Ok(())
            },
        }
    }
}

/// The prefix action of a number token: reads the lexeme the previously
/// consumed token covers.
fn integer(parser: &mut Parser, _can_assign: bool) -> (r: Result<(), CompileError>)
    requires
        1 <= old(parser).current_index <= old(parser).tokens@.len(),
    ensures
        same_frame(*old(parser), *final(parser)),
        final(parser).current_index == old(parser).current_index,
        chunk_grows(*old(parser), *final(parser)),
        ({
            let t = old(parser).tokens@[old(parser).current_index - 1];
            match sp_integer_value(old(parser).source@, t) {
                Ok(v) => match sp_emit_constant(
                    Value::Integer(v),
                    t,
                    old(parser).current_index as int - 1,
                    old(parser).tokens@,
                    pool_of(*old(parser)),
                ) {
                    Ok(out) => r matches Ok(_) && chunk_extended(*old(parser), *final(parser), out),
                    Err(e) => r == Err::<(), CompileError>(e) && chunk_unchanged(
                        *old(parser),
                        *final(parser),
                    ),
                },
                Err(e) => r == Err::<(), CompileError>(e) && *final(parser) == *old(parser),
            }
        }),
{
    let t = parser.previous();
    let lexeme = lexeme_of(parser, t);
    let stripped = strip(&lexeme);
    match parse_int_digits(&stripped) {
        Some(v) => {
            let r = parser.emit_constant(Value::Integer(v), t);
            proof {
                match sp_emit_constant(
                    Value::Integer(v),
                    t,
                    old(parser).current_index as int - 1,
                    old(parser).tokens@,
                    pool_of(*old(parser)),
                ) {
                    Ok(out) => lemma_extended_grows(*old(parser), *parser, out),
                    Err(_) => lemma_unchanged_grows(*old(parser), *parser),
                }
            }
            r
        },
        None => {
            proof {
                lemma_unchanged_grows(*old(parser), *parser);
            }
            Err(CompileError::InvalidNumericLiteral { line: t.line })
        },
    }
}

/// The prefix action of a float token.
fn float(parser: &mut Parser, _can_assign: bool) -> (r: Result<(), CompileError>)
    requires
        1 <= old(parser).current_index <= old(parser).tokens@.len(),
    ensures
        same_frame(*old(parser), *final(parser)),
        final(parser).current_index == old(parser).current_index,
        chunk_grows(*old(parser), *final(parser)),
        ({
            let t = old(parser).tokens@[old(parser).current_index - 1];
            match sp_float_value(old(parser).source@, t) {
                Ok(bits) => match sp_emit_constant(
                    Value::Float(bits),
                    t,
                    old(parser).current_index as int - 1,
                    old(parser).tokens@,
                    pool_of(*old(parser)),
                ) {
                    Ok(out) => r matches Ok(_) && chunk_extended(*old(parser), *final(parser), out),
                    Err(e) => r == Err::<(), CompileError>(e) && chunk_unchanged(
                        *old(parser),
                        *final(parser),
                    ),
                },
                Err(e) => r == Err::<(), CompileError>(e) && *final(parser) == *old(parser),
            }
        }),
{
    let t = parser.previous();
    let lexeme = lexeme_of(parser, t);
    let stripped = strip(&lexeme);
    match float_parse(&stripped) {
        Some(bits) => {
            let r = parser.emit_constant(Value::Float(bits), t);
            proof {
                match sp_emit_constant(
                    Value::Float(bits),
                    t,
                    old(parser).current_index as int - 1,
                    old(parser).tokens@,
                    pool_of(*old(parser)),
                ) {
                    Ok(out) => lemma_extended_grows(*old(parser), *parser, out),
                    Err(_) => lemma_unchanged_grows(*old(parser), *parser),
                }
            }
            r
        },
        None => {
            proof {
                lemma_unchanged_grows(*old(parser), *parser);
            }
            Err(CompileError::InvalidNumericLiteral { line: t.line })
        },
    }
}

/// The prefix action of a complex token: the lexeme less its trailing `j` or
/// `J` is the imaginary component; the real component is zero.
fn complex(parser: &mut Parser, _can_assign: bool) -> (r: Result<(), CompileError>)
    requires
        1 <= old(parser).current_index <= old(parser).tokens@.len(),
    ensures
        same_frame(*old(parser), *final(parser)),
        final(parser).current_index == old(parser).current_index,
        chunk_grows(*old(parser), *final(parser)),
        ({
            let t = old(parser).tokens@[old(parser).current_index - 1];
            match sp_complex_value(old(parser).source@, t) {
                Ok(bits) => match sp_emit_constant(
                    Value::Complex(0, bits),
                    t,
                    old(parser).current_index as int - 1,
                    old(parser).tokens@,
                    pool_of(*old(parser)),
                ) {
                    Ok(out) => r matches Ok(_) && chunk_extended(*old(parser), *final(parser), out),
                    Err(e) => r == Err::<(), CompileError>(e) && chunk_unchanged(
                        *old(parser),
                        *final(parser),
                    ),
                },
                Err(e) => r == Err::<(), CompileError>(e) && *final(parser) == *old(parser),
            }
        }),
{
    let t = parser.previous();
    let mut lexeme = lexeme_of(parser, t);
    let n = lexeme.len();
    if n > 0 {
        let last = lexeme[n - 1];
        if last == 'j' || last == 'J' {
            lexeme.truncate(n - 1);
            proof {
                assert(lexeme@ =~= lexeme_chars(old(parser).source@, t).drop_last());
            }
        }
    }
    let stripped = strip(&lexeme);
    match float_parse(&stripped) {
        Some(bits) => {
            let r = parser.emit_constant(Value::Complex(0, bits), t);
            proof {
                match sp_emit_constant(
                    Value::Complex(0, bits),
                    t,
                    old(parser).current_index as int - 1,
                    old(parser).tokens@,
                    pool_of(*old(parser)),
                ) {
                    Ok(out) => lemma_extended_grows(*old(parser), *parser, out),
                    Err(_) => lemma_unchanged_grows(*old(parser), *parser),
                }
            }
            r
        },
        None => {
            proof {
                lemma_unchanged_grows(*old(parser), *parser);
            }
            Err(CompileError::InvalidNumericLiteral { line: t.line })
        },
    }
}

/// The characters a number token's lexeme covers (empty when the token does
/// not fit the source).
fn lexeme_of(parser: &Parser, t: Token) -> (r: Vec<char>)
    ensures
        r@ == lexeme_chars(parser.source@, t),
{
    let mut out: Vec<char> = Vec::new();
    if t.length >= 1 && t.start <= parser.source.len() && t.length - 1 <= parser.source.len()
        - t.start {
        let end = t.start + (t.length - 1);
        let mut k = t.start;
        while k < end
            invariant
                t.start <= k <= end,
                end <= parser.source@.len(),
                out@ =~= parser.source@.subrange(t.start as int, k as int),
            decreases end - k,
        {
            out.push(parser.source[k]);
            proof {
                assert(parser.source@.subrange(t.start as int, k as int).push(
                    parser.source@[k as int],
                ) =~= parser.source@.subrange(t.start as int, k + 1));
            }
            k = k + 1;
        }
        proof {
            assert(out@ =~= lexeme_chars(parser.source@, t));
        }
    } else {
        proof {
            assert(out@ =~= lexeme_chars(parser.source@, t));
        }
    }
    out
}

/// Drops every underscore digit-separator.
fn strip(chars: &Vec<char>) -> (r: Vec<char>)
    ensures
        r@ == strip_underscores(chars@),
{
    let mut out: Vec<char> = Vec::new();
    let mut k: usize = 0;
    while k < chars.len()
        invariant
            k <= chars@.len(),
            out@ =~= strip_underscores(chars@.take(k as int)),
        decreases chars@.len() - k,
    {
        let c = chars[k];
        proof {
            assert(chars@.take(k + 1).drop_last() =~= chars@.take(k as int));
            assert(chars@.take(k + 1).last() == chars@[k as int]);
        }
        if !is_underscore(c) {
            out.push(c);
        }
        k = k + 1;
    }
    proof {
        assert(chars@.take(chars@.len() as int) =~= chars@);
    }
    out
}

/// Reads a run of decimal digits as an `i32`: `None` when the run is empty,
/// holds a non-digit, or exceeds the 32-bit range.
fn parse_int_digits(ds: &Vec<char>) -> (r: Option<i32>)
    ensures
        match r {
            Some(v) => ds@.len() > 0 && all_digits(ds@) && digits_value(ds@) <= i32::MAX && v
                as int == digits_value(ds@),
            None => !(ds@.len() > 0 && all_digits(ds@) && digits_value(ds@) <= i32::MAX),
        },
{
    if ds.len() == 0 {
        return None;
    }
    let mut acc: u64 = 0;
    let mut k: usize = 0;
    while k < ds.len()
        invariant
            k <= ds@.len(),
            all_digits(ds@.take(k as int)),
            acc as int == digits_value(ds@.take(k as int)),
            acc <= 0x7fff_ffff,
        decreases ds@.len() - k,
    {
        let c = ds[k];
        proof {
            assert(ds@.take(k + 1).drop_last() =~= ds@.take(k as int));
            assert(ds@.take(k + 1).last() == ds@[k as int]);
        }
        if !is_digit(c) {
            return None;
        }
        let d: u64 = (c as u32 as u64) - 48;
        proof {
            assert(digit_of(c) == d as int);
        }
        acc = acc * 10 + d;
        k = k + 1;
        if acc > 0x7fff_ffff {
            proof {
                if all_digits(ds@) {
                    lemma_digits_prefix(ds@, k as int);
                }
            }
            return None;
        }
    }
    proof {
        assert(ds@.take(ds@.len() as int) =~= ds@);
    }
    Some(acc as i32)
}


/// The bytecode operation a binary-operator token compiles to.
fn binary_opcode(tt: TokenType) -> (r: Option<Op>)
    ensures
        r == spec_binary_opcode(tt),
{
    match tt {
        TokenType::Operator(Operator::Plus) => Some(Op::Add),
        TokenType::Operator(Operator::Minus) => Some(Op::Subtract),
        TokenType::Operator(Operator::Star) => Some(Op::Multiply),
        TokenType::Operator(Operator::Slash) => Some(Op::Divide),
        TokenType::Operator(Operator::StarStar) => Some(Op::Exponent),
        TokenType::Operator(Operator::SlashSlash) => Some(Op::IntDivide),
        TokenType::Operator(Operator::Less) => Some(Op::Less),
        TokenType::Operator(Operator::LessEqual) => Some(Op::LessEqual),
        TokenType::Operator(Operator::Greater) => Some(Op::Greater),
        TokenType::Operator(Operator::GreaterEqual) => Some(Op::GreaterEqual),
        TokenType::Operator(Operator::EqualEqual) => Some(Op::ValueEqual),
        TokenType::Operator(Operator::NotEqual) => Some(Op::NotValueEqual),
        _ => None,
    }
}

/// The prefix action of `(`: the grouped expression, then the matching `)`.
fn grouping(parser: &mut Parser, _can_assign: bool) -> (r: Result<(), CompileError>)
    requires
        1 <= old(parser).current_index <= old(parser).tokens@.len(),
    ensures
        same_frame(*old(parser), *final(parser)),
        final(parser).current_index <= final(parser).tokens@.len(),
        chunk_grows(*old(parser), *final(parser)),
        match sp_parse_precedence(
            old(parser).source@,
            old(parser).tokens@,
            old(parser).current_index as int,
            Precedence::Assignment.spec_level(),
            pool_of(*old(parser)),
        ) {
            Ok(r1) => {
                let n1 = step_idx(
                    r1.next,
                    old(parser).current_index - 1,
                    old(parser).tokens@.len() as int,
                );
                if tok_at(old(parser).tokens@, n1).tokentype == TokenType::Operator(
                    Operator::RightParen,
                ) {
                    &&& r matches Ok(_)
                    &&& final(parser).current_index as int == adv(old(parser).tokens@, n1)
                    &&& final(parser).current_index > old(parser).current_index - 1
                    &&& chunk_extended(*old(parser), *final(parser), r1)
                } else {
                    r == Err::<(), CompileError>(
                        CompileError::UnterminatedGrouping {
                            line: tok_at(old(parser).tokens@, n1).line,
                        },
                    )
                }
            },
            Err(e) => r == Err::<(), CompileError>(e),
        },
    decreases old(parser).tokens@.len() - old(parser).current_index, 5int,
{
    match parser.expression() {
        Err(e) => {
            return Err(e);
        },
        Ok(()) => {},
    }
    let closing = parser.current();
    if parser.match_tokentype(TokenType::Operator(Operator::RightParen)) {
        Ok(())
    } else {
        Err(CompileError::UnterminatedGrouping { line: closing.line })
    }
}

/// The infix action of a binary operator: its right operand, one level
/// tighter, then its opcode.
fn binary(parser: &mut Parser, _can_assign: bool) -> (r: Result<(), CompileError>)
    requires
        1 <= old(parser).current_index <= old(parser).tokens@.len(),
    ensures
        same_frame(*old(parser), *final(parser)),
        final(parser).current_index <= final(parser).tokens@.len(),
        chunk_grows(*old(parser), *final(parser)),
        ({
            let op_t = old(parser).tokens@[old(parser).current_index - 1];
            match sp_parse_precedence(
                old(parser).source@,
                old(parser).tokens@,
                old(parser).current_index as int,
                spec_rule(op_t.tokentype).precedence.spec_next().spec_level(),
                pool_of(*old(parser)),
            ) {
                Ok(r1) => match spec_binary_opcode(op_t.tokentype) {
                    Some(op) => {
                        &&& r matches Ok(_)
                        &&& final(parser).current_index as int == step_idx(
                            r1.next,
                            old(parser).current_index - 1,
                            old(parser).tokens@.len() as int,
                        )
                        &&& final(parser).current_index > old(parser).current_index - 1
                        &&& chunk_extended(
                            *old(parser),
                            *final(parser),
                            ParseOut {
                                next: 0,
                                code: r1.code + seq![BytecodeOp::Op(op)],
                                lines: r1.lines + seq![spec_line16(op_t.line)],
                                consts: r1.consts,
                            },
                        )
                    },
                    None => r == Err::<(), CompileError>(
                        CompileError::UnknownBinaryOperator { line: op_t.line },
                    ),
                },
                Err(e) => r == Err::<(), CompileError>(e),
            }
        }),
    decreases old(parser).tokens@.len() - old(parser).current_index, 4int,
{
    let t = parser.previous();
    let rule = ParseRule::of(t.tokentype);
    proof {
        // no dispatch row binds at Primary
        assert(rule.precedence != Precedence::Primary);
    }
    let next_prec = rule.precedence.next();
    let ghost pre = *parser;
    match parser.parse_precedence(next_prec) {
        Err(e) => {
            return Err(e);
        },
        Ok(()) => {},
    }
    match binary_opcode(t.tokentype) {
        Some(op) => {
            let ghost mid = *parser;
            parser.emit(BytecodeOp::Op(op), t.line);
            proof {
                let c0 = pre.compiler.function.chunk.codes@;
                let l0 = pre.compiler.function.chunk.lines@;
                let k0 = pre.compiler.function.chunk.constants@;
                let r1 = sp_parse_precedence(
                    pre.source@,
                    pre.tokens@,
                    pre.current_index as int,
                    spec_rule(t.tokentype).precedence.spec_next().spec_level(),
                    pool_of(pre),
                )->Ok_0;
                assert(parser.compiler.function.chunk.codes@ =~= c0 + (r1.code + seq![
                    BytecodeOp::Op(op),
                ]));
                assert(parser.compiler.function.chunk.lines@ =~= l0 + (r1.lines + seq![
                    spec_line16(t.line),
                ]));
                assert(parser.compiler.function.chunk.constants@ =~= k0 + r1.consts);
                lemma_append_prefix(c0, r1.code + seq![BytecodeOp::Op(op)]);
                lemma_append_prefix(l0, r1.lines + seq![spec_line16(t.line)]);
                lemma_append_prefix(k0, r1.consts);
            }
            Ok(())
        },
        None => Err(CompileError::UnknownBinaryOperator { line: t.line }),
    }
}

/// Runs the prefix action of the already-consumed token at `t_prev` (a
/// grouping or a literal; tokens without an action never reach here). On an
/// error from a non-grouping action nothing was emitted.
fn prefix_action(
    parser: &mut Parser,
    rule: ParseRule,
    t_prev: Token,
    assignable: bool,
) -> (r: Result<(), CompileError>)
    requires
        1 <= old(parser).current_index <= old(parser).tokens@.len(),
        t_prev == old(parser).tokens@[old(parser).current_index - 1],
        rule == spec_rule(t_prev.tokentype),
        rule.prefix matches Some(p) && p != PrefixRule::Unary,
    ensures
        same_frame(*old(parser), *final(parser)),
        final(parser).current_index <= final(parser).tokens@.len(),
        chunk_grows(*old(parser), *final(parser)),
        ({
            let i = old(parser).current_index as int - 1;
            match sp_prefix(
                old(parser).source@,
                old(parser).tokens@,
                i,
                pool_of(*old(parser)),
            ) {
                Ok(r0) => {
                    &&& r matches Ok(_)
                    &&& final(parser).current_index as int == r0.next
                    &&& final(parser).current_index as int > i
                    &&& chunk_extended(*old(parser), *final(parser), r0)
                },
                Err(e) => r == Err::<(), CompileError>(e) && (!(rule.prefix matches Some(
                    PrefixRule::Grouping,
                )) ==> chunk_unchanged(*old(parser), *final(parser))),
            }
        }),
    decreases old(parser).tokens@.len() - old(parser).current_index, 6int,
{
    match rule.prefix {
        Some(PrefixRule::Grouping) => grouping(parser, assignable),
        Some(PrefixRule::IntegerLit) => integer(parser, assignable),
        Some(PrefixRule::FloatLit) => float(parser, assignable),
        Some(PrefixRule::ComplexLit) => complex(parser, assignable),
        _ => {
            proof {
                assert(false);
            }
            Err(CompileError::UnexpectedExpressionToken { line: t_prev.line })
        },
    }
}

impl Parser {
    /// The Pratt engine: consumes one token, runs its prefix action, then
    /// folds infix actions while the coming token binds at least at
    /// `precedence`; finally rejects a trailing `=` in assignable position.
    #[verifier::rlimit(100)]
    pub fn parse_precedence(&mut self, precedence: Precedence) -> (r: Result<(), CompileError>)
        requires
            old(self).current_index <= old(self).tokens@.len(),
        ensures
            same_frame(*old(self), *final(self)),
            final(self).current_index <= final(self).tokens@.len(),
            chunk_grows(*old(self), *final(self)),
            match sp_parse_precedence(
                old(self).source@,
                old(self).tokens@,
                old(self).current_index as int,
                precedence.spec_level(),
                pool_of(*old(self)),
            ) {
                Ok(out) => {
                    &&& r matches Ok(_)
                    &&& final(self).current_index as int == out.next
                    &&& final(self).current_index > old(self).current_index
                    &&& chunk_extended(*old(self), *final(self), out)
                },
                Err(e) => r == Err::<(), CompileError>(e),
            },
            ({
                let rule0 = spec_rule(
                    tok_at(old(self).tokens@, old(self).current_index as int).tokentype,
                );
                (sp_prefix(
                    old(self).source@,
                    old(self).tokens@,
                    old(self).current_index as int,
                    pool_of(*old(self)),
                ) matches Err(_) && !(rule0.prefix matches Some(PrefixRule::Grouping)))
                    ==> chunk_unchanged(*old(self), *final(self))
            }),
        decreases old(self).tokens@.len() - old(self).current_index, 3int,
    {
        let ghost pre = *self;
        let ghost src = pre.source@;
        let ghost toks = pre.tokens@;
        let ghost i = pre.current_index as int;
        let ghost minlvl = precedence.spec_level();
        let ghost pool0 = pool_of(pre);
        let ghost full = sp_parse_precedence(src, toks, i, minlvl, pool0);

        let t_prev = self.current();
        let rule = ParseRule::of(t_prev.tokentype);
        self.advance();
        let assignable = precedence.level() <= 1;
        let prefix_result: Result<(), CompileError> = match rule.prefix {
            None => Err(CompileError::UnexpectedExpressionToken { line: t_prev.line }),
            Some(PrefixRule::Unary) => Err(
                CompileError::UnsupportedExpression { line: t_prev.line },
            ),
            Some(_) => {
                proof {
                    // end-of-input carries no prefix action, so a token with
                    // one lies within the stream
                    assert(i < toks.len());
                }
                prefix_action(self, rule, t_prev, assignable)
            },
        };
        match prefix_result {
            Err(e) => {
                proof {
                    assert(sp_prefix(src, toks, i, pool0) == Err::<ParseOut, CompileError>(e));
                    if !(rule.prefix matches Some(PrefixRule::Grouping)) {
                        assert(chunk_unchanged(pre, *self));
                        lemma_unchanged_grows(pre, *self);
                    }
                }
                return Err(e);
            },
            Ok(()) => {},
        }
        proof {
            assert(sp_prefix(src, toks, i, pool0) matches Ok(_));
            assert(i < toks.len());
        }
        let ghost r0 = sp_prefix(src, toks, i, pool0)->Ok_0;
        proof {
            assert(self.current_index as int == r0.next);
            assert(self.current_index > i);
            assert(chunk_extended(pre, *self, r0));
            assert(step_idx(r0.next, i, toks.len() as int) == r0.next);
            lemma_extended_grows(pre, *self, r0);
        }
        let ghost n0 = self.current_index as int;
        let ghost p0 = pool_of(*self);
        let ghost c0 = self.compiler.function.chunk.codes@;
        let ghost l0 = self.compiler.function.chunk.lines@;
        let ghost k0 = self.compiler.function.chunk.constants@;
        while (self.current_index < self.tokens.len() && ParseRule::of(
            self.current().tokentype,
        ).precedence.level() >= precedence.level())
            invariant
                old(self).current_index <= old(self).tokens@.len(),
                pre == *old(self),
                src == pre.source@,
                toks == pre.tokens@,
                i == pre.current_index as int,
                minlvl == precedence.spec_level(),
                pool0 == pool_of(pre),
                sp_prefix(src, toks, i, pool0) == Ok::<ParseOut, CompileError>(r0),
                n0 == r0.next,
                i < n0 <= toks.len(),
                p0 == pool0 + r0.consts.len(),
                c0 == pre.compiler.function.chunk.codes@ + r0.code,
                l0 == pre.compiler.function.chunk.lines@ + r0.lines,
                k0 == pre.compiler.function.chunk.constants@ + r0.consts,
                k0.len() as int == p0,
                same_frame(pre, *self),
                chunk_grows(pre, *self),
                i < self.current_index <= self.tokens@.len(),
                n0 <= self.current_index as int,
                c0.len() <= self.compiler.function.chunk.codes@.len(),
                self.compiler.function.chunk.codes@.take(c0.len() as int) == c0,
                l0.len() <= self.compiler.function.chunk.lines@.len(),
                self.compiler.function.chunk.lines@.take(l0.len() as int) == l0,
                k0.len() <= self.compiler.function.chunk.constants@.len(),
                self.compiler.function.chunk.constants@.take(k0.len() as int) == k0,
                ({
                    let dcode = self.compiler.function.chunk.codes@.skip(c0.len() as int);
                    let dlines = self.compiler.function.chunk.lines@.skip(l0.len() as int);
                    let dconsts = self.compiler.function.chunk.constants@.skip(k0.len() as int);
                    match sp_infix_loop(
                        src,
                        toks,
                        self.current_index as int,
                        minlvl,
                        pool_of(*self),
                    ) {
                        Ok(out) => sp_infix_loop(src, toks, n0, minlvl, p0) == Ok::<
                            ParseOut,
                            CompileError,
                        >(
                            ParseOut {
                                next: out.next,
                                code: dcode + out.code,
                                lines: dlines + out.lines,
                                consts: dconsts + out.consts,
                            },
                        ),
                        Err(e) => sp_infix_loop(src, toks, n0, minlvl, p0) == Err::<
                            ParseOut,
                            CompileError,
                        >(e),
                    }
                }),
            decreases self.tokens@.len() - self.current_index,
        {
            let ghost j = self.current_index as int;
            let ghost poolj = pool_of(*self);
            let ghost cj = self.compiler.function.chunk.codes@;
            let ghost lj = self.compiler.function.chunk.lines@;
            let ghost kj = self.compiler.function.chunk.constants@;
            let t_op = self.current();
            self.advance();
            let rule2 = ParseRule::of(t_op.tokentype);
            match rule2.infix {
                None => {
                    proof {
                        assert(sp_infix_loop(src, toks, j, minlvl, poolj) == Err::<
                            ParseOut,
                            CompileError,
                        >(CompileError::MissingInfixRule { line: t_op.line }));
                        assert(chunk_grows(pre, *self));
                    }
                    return Err(CompileError::MissingInfixRule { line: t_op.line });
                },
                Some(InfixRule::CallExpr) => {
                    proof {
                        assert(sp_infix_loop(src, toks, j, minlvl, poolj) == Err::<
                            ParseOut,
                            CompileError,
                        >(CompileError::UnsupportedExpression { line: t_op.line }));
                        assert(chunk_grows(pre, *self));
                    }
                    return Err(CompileError::UnsupportedExpression { line: t_op.line });
                },
                Some(InfixRule::Binary) => {
                    let ghost before = *self;
                    match binary(self, assignable) {
                        Err(e) => {
                            proof {
                                assert(sp_infix_loop(src, toks, j, minlvl, poolj) == Err::<
                                    ParseOut,
                                    CompileError,
                                >(e));
                                assert(chunk_grows(pre, before));
                                lemma_grows_trans(pre, before, *self);
                            }
                            return Err(e);
                        },
                        Ok(()) => {
                            proof {
                                let r1 = sp_parse_precedence(
                                    src,
                                    toks,
                                    j + 1,
                                    spec_rule(t_op.tokentype).precedence.spec_next().spec_level(),
                                    poolj,
                                )->Ok_0;
                                let op = spec_binary_opcode(t_op.tokentype)->0;
                                let nxt = step_idx(r1.next, j, toks.len() as int);
                                assert(self.current_index as int == nxt);
                                // regroup the accumulated emission around this operator
                                let dcode_old = cj.skip(c0.len() as int);
                                let dlines_old = lj.skip(l0.len() as int);
                                let dconsts_old = kj.skip(k0.len() as int);
                                let dcode = self.compiler.function.chunk.codes@.skip(
                                    c0.len() as int,
                                );
                                let dlines = self.compiler.function.chunk.lines@.skip(
                                    l0.len() as int,
                                );
                                let dconsts = self.compiler.function.chunk.constants@.skip(
                                    k0.len() as int,
                                );
                                assert(self.compiler.function.chunk.codes@.take(c0.len() as int)
                                    =~= c0);
                                assert(self.compiler.function.chunk.lines@.take(l0.len() as int)
                                    =~= l0);
                                assert(self.compiler.function.chunk.constants@.take(
                                    k0.len() as int,
                                ) =~= k0);
                                assert(dcode =~= dcode_old + (r1.code + seq![BytecodeOp::Op(op)]));
                                assert(dlines =~= dlines_old + (r1.lines + seq![
                                    spec_line16(t_op.line),
                                ]));
                                assert(dconsts =~= dconsts_old + r1.consts);
                                assert(pool_of(*self) == poolj + r1.consts.len());
                                lemma_grows_from_snapshots(
                                    pre,
                                    *self,
                                    c0,
                                    l0,
                                    k0,
                                    r0.code,
                                    r0.lines,
                                    r0.consts,
                                );
                                match sp_infix_loop(src, toks, nxt, minlvl, pool_of(*self)) {
                                    Ok(out2) => {
                                        assert(sp_infix_loop(src, toks, j, minlvl, poolj) == Ok::<
                                            ParseOut,
                                            CompileError,
                                        >(
                                            ParseOut {
                                                next: out2.next,
                                                code: r1.code + seq![BytecodeOp::Op(op)]
                                                    + out2.code,
                                                lines: r1.lines + seq![spec_line16(t_op.line)]
                                                    + out2.lines,
                                                consts: r1.consts + out2.consts,
                                            },
                                        ));
                                        assert(dcode + out2.code =~= dcode_old + (r1.code + seq![
                                            BytecodeOp::Op(op),
                                        ] + out2.code));
                                        assert(dlines + out2.lines =~= dlines_old + (r1.lines
                                            + seq![spec_line16(t_op.line)] + out2.lines));
                                        assert(dconsts + out2.consts =~= dconsts_old + (r1.consts
                                            + out2.consts));
                                    },
                                    Err(_) => {},
                                }
                            }
                        },
                    }
                },
            }
        }
        proof {
            // the coming token no longer binds: the fold is over
            assert(sp_infix_loop(src, toks, self.current_index as int, minlvl, pool_of(*self))
                == Ok::<ParseOut, CompileError>(
                ParseOut {
                    next: self.current_index as int,
                    code: Seq::empty(),
                    lines: Seq::empty(),
                    consts: Seq::empty(),
                },
            ));
            assert(self.compiler.function.chunk.codes@.skip(c0.len() as int) + Seq::<
                BytecodeOp,
            >::empty() =~= self.compiler.function.chunk.codes@.skip(c0.len() as int));
            assert(self.compiler.function.chunk.lines@.skip(l0.len() as int) + Seq::<
                u16,
            >::empty() =~= self.compiler.function.chunk.lines@.skip(l0.len() as int));
            assert(self.compiler.function.chunk.constants@.skip(k0.len() as int) + Seq::<
                Value,
            >::empty() =~= self.compiler.function.chunk.constants@.skip(k0.len() as int));
        }
        let ghost r1all = sp_infix_loop(src, toks, n0, minlvl, p0)->Ok_0;
        if assignable {
            let eq_t = self.current();
            if self.match_tokentype(TokenType::Operator(Operator::Equal)) {
                return Err(CompileError::InvalidAssignmentTarget { line: eq_t.line });
            }
        }
        proof {
            assert(i < toks.len());
            assert(sp_prefix(src, toks, i, pool0) == Ok::<ParseOut, CompileError>(r0));
            assert(step_idx(r0.next, i, toks.len() as int) == n0);
            assert(sp_infix_loop(src, toks, n0, minlvl, pool0 + r0.consts.len()) == Ok::<
                ParseOut,
                CompileError,
            >(r1all));
            assert(r1all.next == self.current_index as int);
            assert(!(minlvl <= Precedence::Assignment.spec_level() && tok_at(
                toks,
                r1all.next,
            ).tokentype == TokenType::Operator(Operator::Equal)));
            assert(sp_parse_precedence(src, toks, i, minlvl, pool0) == Ok::<
                ParseOut,
                CompileError,
            >(
                ParseOut {
                    next: r1all.next,
                    code: r0.code + r1all.code,
                    lines: r0.lines + r1all.lines,
                    consts: r0.consts + r1all.consts,
                },
            ));
            let out = sp_parse_precedence(src, toks, i, minlvl, pool0)->Ok_0;
            assert(out.next == r1all.next);
            assert(out.code =~= r0.code + r1all.code);
            let cs = self.compiler.function.chunk.codes@;
            let ls = self.compiler.function.chunk.lines@;
            let ks = self.compiler.function.chunk.constants@;
            assert(r1all.code == cs.skip(c0.len() as int));
            assert(r1all.lines == ls.skip(l0.len() as int));
            assert(r1all.consts == ks.skip(k0.len() as int));
            assert(cs =~= cs.take(c0.len() as int) + cs.skip(c0.len() as int));
            assert(ls =~= ls.take(l0.len() as int) + ls.skip(l0.len() as int));
            assert(ks =~= ks.take(k0.len() as int) + ks.skip(k0.len() as int));
            assert(self.compiler.function.chunk.codes@ =~= pre.compiler.function.chunk.codes@
                + out.code);
            assert(self.compiler.function.chunk.lines@ =~= pre.compiler.function.chunk.lines@
                + (r0.lines + r1all.lines));
            assert(self.compiler.function.chunk.constants@
                =~= pre.compiler.function.chunk.constants@ + (r0.consts + r1all.consts));
        }
        Ok(())
    }

    /// An expression: parsing at assignment precedence.
    pub fn expression(&mut self) -> (r: Result<(), CompileError>)
        requires
            old(self).current_index <= old(self).tokens@.len(),
        ensures
            same_frame(*old(self), *final(self)),
            final(self).current_index <= final(self).tokens@.len(),
            chunk_grows(*old(self), *final(self)),
            match sp_parse_precedence(
                old(self).source@,
                old(self).tokens@,
                old(self).current_index as int,
                Precedence::Assignment.spec_level(),
                pool_of(*old(self)),
            ) {
                Ok(out) => {
                    &&& r matches Ok(_)
                    &&& final(self).current_index as int == out.next
                    &&& final(self).current_index > old(self).current_index
                    &&& chunk_extended(*old(self), *final(self), out)
                },
                Err(e) => r == Err::<(), CompileError>(e),
            },
        decreases old(self).tokens@.len() - old(self).current_index, 4int,
    {
        self.parse_precedence(Precedence::Assignment)
    }
}


impl Parser {
    /// An expression statement: the expression is parsed and its value left
    /// on the operand stack (no clearing opcode is emitted).
    pub fn expression_statement(&mut self) -> (r: Result<(), CompileError>)
        requires
            old(self).current_index <= old(self).tokens@.len(),
        ensures
            same_frame(*old(self), *final(self)),
            final(self).current_index <= final(self).tokens@.len(),
            chunk_grows(*old(self), *final(self)),
            match sp_parse_precedence(
                old(self).source@,
                old(self).tokens@,
                old(self).current_index as int,
                Precedence::Assignment.spec_level(),
                pool_of(*old(self)),
            ) {
                Ok(out) => {
                    &&& r matches Ok(_)
                    &&& final(self).current_index as int == out.next
                    &&& final(self).current_index > old(self).current_index
                    &&& chunk_extended(*old(self), *final(self), out)
                },
                Err(e) => r == Err::<(), CompileError>(e),
            },
        decreases old(self).tokens@.len() - old(self).current_index, 5int,
    {
        self.expression()
    }

    /// The `assert` statement's body, after its keyword was consumed: the
    /// asserted expression, then an `Assert` opcode carrying the line of the
    /// expression's last token.
    fn assert_statement(&mut self) -> (r: Result<(), CompileError>)
        requires
            1 <= old(self).current_index <= old(self).tokens@.len(),
        ensures
            same_frame(*old(self), *final(self)),
            final(self).current_index <= final(self).tokens@.len(),
            chunk_grows(*old(self), *final(self)),
            match sp_parse_precedence(
                old(self).source@,
                old(self).tokens@,
                old(self).current_index as int,
                Precedence::Assignment.spec_level(),
                pool_of(*old(self)),
            ) {
                Ok(r1) => {
                    &&& r matches Ok(_)
                    &&& final(self).current_index as int == r1.next
                    &&& final(self).current_index > old(self).current_index
                    &&& chunk_extended(
                        *old(self),
                        *final(self),
                        ParseOut {
                            next: 0,
                            code: r1.code + seq![BytecodeOp::Op(Op::Assert)],
                            lines: r1.lines + seq![
                                spec_line16(tok_at(old(self).tokens@, r1.next - 1).line),
                            ],
                            consts: r1.consts,
                        },
                    )
                },
                Err(e) => r == Err::<(), CompileError>(e),
            },
        decreases old(self).tokens@.len() - old(self).current_index, 5int,
    {
        let ghost pre = *self;
        match self.expression() {
            Err(e) => {
                return Err(e);
            },
            Ok(()) => {},
        }
        let line = self.previous().line;
        let ghost mid = *self;
        self.emit(BytecodeOp::Op(Op::Assert), line);
        proof {
            let r1 = sp_parse_precedence(
                pre.source@,
                pre.tokens@,
                pre.current_index as int,
                Precedence::Assignment.spec_level(),
                pool_of(pre),
            )->Ok_0;
            assert(self.compiler.function.chunk.codes@ =~= pre.compiler.function.chunk.codes@
                + (r1.code + seq![BytecodeOp::Op(Op::Assert)]));
            assert(self.compiler.function.chunk.lines@ =~= pre.compiler.function.chunk.lines@
                + (r1.lines + seq![spec_line16(tok_at(pre.tokens@, r1.next - 1).line)]));
            assert(self.compiler.function.chunk.constants@
                =~= pre.compiler.function.chunk.constants@ + r1.consts);
            lemma_append_prefix(
                pre.compiler.function.chunk.codes@,
                r1.code + seq![BytecodeOp::Op(Op::Assert)],
            );
            lemma_append_prefix(
                pre.compiler.function.chunk.lines@,
                r1.lines + seq![spec_line16(tok_at(pre.tokens@, r1.next - 1).line)],
            );
            lemma_append_prefix(pre.compiler.function.chunk.constants@, r1.consts);
        }
        Ok(())
    }

    /// One statement: `assert <expr>`, or a bare expression.
    pub fn statement(&mut self) -> (r: Result<(), CompileError>)
        requires
            old(self).current_index <= old(self).tokens@.len(),
        ensures
            same_frame(*old(self), *final(self)),
            final(self).current_index <= final(self).tokens@.len(),
            chunk_grows(*old(self), *final(self)),
            match sp_statement(
                old(self).source@,
                old(self).tokens@,
                old(self).current_index as int,
                pool_of(*old(self)),
            ) {
                Ok(out) => {
                    &&& r matches Ok(_)
                    &&& final(self).current_index as int == out.next
                    &&& final(self).current_index > old(self).current_index
                    &&& chunk_extended(*old(self), *final(self), out)
                },
                Err(e) => r == Err::<(), CompileError>(e),
            },
        decreases old(self).tokens@.len() - old(self).current_index, 6int,
    {
        if self.match_tokentype(TokenType::Keyword(Keyword::Assert)) {
            self.assert_statement()
        } else {
            self.expression_statement()
        }
    }

    /// One declaration (the grammar has only statements today).
    pub fn declaration(&mut self) -> (r: Result<(), CompileError>)
        requires
            old(self).current_index <= old(self).tokens@.len(),
        ensures
            same_frame(*old(self), *final(self)),
            final(self).current_index <= final(self).tokens@.len(),
            chunk_grows(*old(self), *final(self)),
            match sp_statement(
                old(self).source@,
                old(self).tokens@,
                old(self).current_index as int,
                pool_of(*old(self)),
            ) {
                Ok(out) => {
                    &&& r matches Ok(_)
                    &&& final(self).current_index as int == out.next
                    &&& final(self).current_index > old(self).current_index
                    &&& chunk_extended(*old(self), *final(self), out)
                },
                Err(e) => r == Err::<(), CompileError>(e),
            },
        decreases old(self).tokens@.len() - old(self).current_index, 7int,
    {
        self.statement()
    }

    /// The whole program: declarations until the tokens run out, emitted
    /// into the compiler's function object.
    pub fn compile_program(&mut self) -> (r: Result<(), CompileError>)
        requires
            old(self).current_index <= old(self).tokens@.len(),
        ensures
            same_frame(*old(self), *final(self)),
            chunk_grows(*old(self), *final(self)),
            match sp_program(
                old(self).source@,
                old(self).tokens@,
                old(self).current_index as int,
                pool_of(*old(self)),
            ) {
                Ok(out) => r matches Ok(_) && final(self).current_index as int == out.next
                    && chunk_extended(*old(self), *final(self), out),
                Err(e) => r == Err::<(), CompileError>(e),
            },
    {
        let ghost pre = *self;
        let ghost src = pre.source@;
        let ghost toks = pre.tokens@;
        let ghost i0 = pre.current_index as int;
        let ghost pool0 = pool_of(pre);
        let ghost c0 = pre.compiler.function.chunk.codes@;
        let ghost l0 = pre.compiler.function.chunk.lines@;
        let ghost k0 = pre.compiler.function.chunk.constants@;
        proof {
            lemma_unchanged_grows(pre, *self);
        }
        while self.current_index < self.tokens.len()
            invariant
                pre == *old(self),
                src == pre.source@,
                toks == pre.tokens@,
                i0 == pre.current_index as int,
                pool0 == pool_of(pre),
                c0 == pre.compiler.function.chunk.codes@,
                l0 == pre.compiler.function.chunk.lines@,
                k0 == pre.compiler.function.chunk.constants@,
                same_frame(pre, *self),
                chunk_grows(pre, *self),
                i0 <= self.current_index <= self.tokens@.len(),
                c0.len() <= self.compiler.function.chunk.codes@.len(),
                self.compiler.function.chunk.codes@.take(c0.len() as int) == c0,
                l0.len() <= self.compiler.function.chunk.lines@.len(),
                self.compiler.function.chunk.lines@.take(l0.len() as int) == l0,
                k0.len() <= self.compiler.function.chunk.constants@.len(),
                self.compiler.function.chunk.constants@.take(k0.len() as int) == k0,
                ({
                    let dcode = self.compiler.function.chunk.codes@.skip(c0.len() as int);
                    let dlines = self.compiler.function.chunk.lines@.skip(l0.len() as int);
                    let dconsts = self.compiler.function.chunk.constants@.skip(k0.len() as int);
                    match sp_program(src, toks, self.current_index as int, pool_of(*self)) {
                        Ok(out) => sp_program(src, toks, i0, pool0) == Ok::<
                            ParseOut,
                            CompileError,
                        >(
                            ParseOut {
                                next: out.next,
                                code: dcode + out.code,
                                lines: dlines + out.lines,
                                consts: dconsts + out.consts,
                            },
                        ),
                        Err(e) => sp_program(src, toks, i0, pool0) == Err::<
                            ParseOut,
                            CompileError,
                        >(e),
                    }
                }),
            decreases self.tokens@.len() - self.current_index,
        {
            let ghost pj = *self;
            let ghost j = self.current_index as int;
            let ghost poolj = pool_of(*self);
            let ghost cj = self.compiler.function.chunk.codes@;
            let ghost lj = self.compiler.function.chunk.lines@;
            let ghost kj = self.compiler.function.chunk.constants@;
            match self.declaration() {
                Err(e) => {
                    proof {
                        assert(sp_program(src, toks, j, poolj) == Err::<ParseOut, CompileError>(
                            e,
                        ));
                        lemma_grows_trans(pre, pj, *self);
                    }
                    return Err(e);
                },
                Ok(()) => {
                    proof {
                        let r1 = sp_statement(src, toks, j, poolj)->Ok_0;
                        let nxt = step_idx(r1.next, j, toks.len() as int);
                        assert(self.current_index as int == nxt);
                        let dcode_old = cj.skip(c0.len() as int);
                        let dlines_old = lj.skip(l0.len() as int);
                        let dconsts_old = kj.skip(k0.len() as int);
                        let dcode = self.compiler.function.chunk.codes@.skip(c0.len() as int);
                        let dlines = self.compiler.function.chunk.lines@.skip(l0.len() as int);
                        let dconsts = self.compiler.function.chunk.constants@.skip(
                            k0.len() as int,
                        );
                        assert(self.compiler.function.chunk.codes@.take(c0.len() as int) =~= c0);
                        assert(self.compiler.function.chunk.lines@.take(l0.len() as int) =~= l0);
                        assert(self.compiler.function.chunk.constants@.take(k0.len() as int)
                            =~= k0);
                        assert(dcode =~= dcode_old + r1.code);
                        assert(dlines =~= dlines_old + r1.lines);
                        assert(dconsts =~= dconsts_old + r1.consts);
                        assert(pool_of(*self) == poolj + r1.consts.len());
                        assert(pre.compiler.function.chunk.codes@ + Seq::<BytecodeOp>::empty()
                            =~= c0);
                        assert(pre.compiler.function.chunk.lines@ + Seq::<u16>::empty() =~= l0);
                        assert(pre.compiler.function.chunk.constants@ + Seq::<Value>::empty()
                            =~= k0);
                        lemma_grows_from_snapshots(
                            pre,
                            *self,
                            c0,
                            l0,
                            k0,
                            Seq::empty(),
                            Seq::empty(),
                            Seq::empty(),
                        );
                        match sp_program(src, toks, nxt, pool_of(*self)) {
                            Ok(out2) => {
                                assert(sp_program(src, toks, j, poolj) == Ok::<
                                    ParseOut,
                                    CompileError,
                                >(
                                    ParseOut {
                                        next: out2.next,
                                        code: r1.code + out2.code,
                                        lines: r1.lines + out2.lines,
                                        consts: r1.consts + out2.consts,
                                    },
                                ));
                                assert(dcode + out2.code =~= dcode_old + (r1.code + out2.code));
                                assert(dlines + out2.lines =~= dlines_old + (r1.lines
                                    + out2.lines));
                                assert(dconsts + out2.consts =~= dconsts_old + (r1.consts
                                    + out2.consts));
                            },
                            Err(_) => {},
                        }
                    }
                },
            }
        }
        proof {
            assert(sp_program(src, toks, self.current_index as int, pool_of(*self)) == Ok::<
                ParseOut,
                CompileError,
            >(
                ParseOut {
                    next: self.current_index as int,
                    code: Seq::empty(),
                    lines: Seq::empty(),
                    consts: Seq::empty(),
                },
            ));
            let cs = self.compiler.function.chunk.codes@;
            let ls = self.compiler.function.chunk.lines@;
            let ks = self.compiler.function.chunk.constants@;
            assert(cs.skip(c0.len() as int) + Seq::<BytecodeOp>::empty() =~= cs.skip(
                c0.len() as int,
            ));
            assert(ls.skip(l0.len() as int) + Seq::<u16>::empty() =~= ls.skip(l0.len() as int));
            assert(ks.skip(k0.len() as int) + Seq::<Value>::empty() =~= ks.skip(k0.len() as int));
            assert(cs =~= cs.take(c0.len() as int) + cs.skip(c0.len() as int));
            assert(ls =~= ls.take(l0.len() as int) + ls.skip(l0.len() as int));
            assert(ks =~= ks.take(k0.len() as int) + ks.skip(k0.len() as int));
        }
        Ok(())
    }
}


/// A compiled fragment is self-contained bytecode, emitted after `pool`
/// constants: its line table parallels its units, no jump operand occurs,
/// every `Constant` opcode is followed by its index operand, every index
/// operand follows a `Constant` opcode and points below the pool's final
/// size, and the pool stays within its one-byte bound.
pub open spec fn fragment_wf(out: ParseOut, pool: int) -> bool {
    &&& out.code.len() == out.lines.len()
    &&& pool + out.consts.len() <= MAX_CONSTANTS
    &&& forall|k: int|
        0 <= k < out.code.len() ==> !((#[trigger] out.code[k]) matches BytecodeOp::JumpDistance(
            _,
        ))
    &&& forall|k: int|
        0 <= k < out.code.len() ==> ((#[trigger] out.code[k]) matches BytecodeOp::ConstantIndex(
            x,
        ) ==> k > 0 && out.code[k - 1] == BytecodeOp::Op(Op::Constant) && (x as int) < pool
            + out.consts.len())
    &&& forall|k: int|
        0 <= k < out.code.len() ==> ((#[trigger] out.code[k]) == BytecodeOp::Op(Op::Constant)
            ==> k + 1 < out.code.len() && (out.code[k + 1] matches BytecodeOp::ConstantIndex(_)))
}

/// Two adjacent fragments concatenate to a fragment.
proof fn lemma_fragment_concat(a: ParseOut, b: ParseOut, pool: int, n: int)
    requires
        fragment_wf(a, pool),
        fragment_wf(b, pool + a.consts.len()),
    ensures
        fragment_wf(
            ParseOut {
                next: n,
                code: a.code + b.code,
                lines: a.lines + b.lines,
                consts: a.consts + b.consts,
            },
            pool,
        ),
{
    let c = a.code + b.code;
    assert forall|k: int|
        0 <= k < c.len() implies ((#[trigger] c[k]) matches BytecodeOp::ConstantIndex(x) ==> k > 0
        && c[k - 1] == BytecodeOp::Op(Op::Constant) && (x as int) < pool + (a.consts
        + b.consts).len()) by {
        if k < a.code.len() {
            assert(c[k] == a.code[k]);
            if k > 0 {
                assert(c[k - 1] == a.code[k - 1]);
            }
        } else {
            assert(c[k] == b.code[k - a.code.len()]);
            if k - a.code.len() > 0 {
                assert(c[k - 1] == b.code[k - a.code.len() - 1]);
            } else {
                // a fragment never begins with an index operand
            }
        }
    }
    assert forall|k: int|
        0 <= k < c.len() implies ((#[trigger] c[k]) == BytecodeOp::Op(Op::Constant) ==> k + 1
        < c.len() && (c[k + 1] matches BytecodeOp::ConstantIndex(_))) by {
        if k < a.code.len() {
            assert(c[k] == a.code[k]);
            if a.code[k] == BytecodeOp::Op(Op::Constant) {
                assert(c[k + 1] == a.code[k + 1]);
            }
        } else {
            assert(c[k] == b.code[k - a.code.len()]);
            if b.code[k - a.code.len()] == BytecodeOp::Op(Op::Constant) {
                assert(c[k + 1] == b.code[k - a.code.len() + 1]);
            }
        }
    }
    assert forall|k: int|
        0 <= k < c.len() implies !((#[trigger] c[k]) matches BytecodeOp::JumpDistance(_)) by {
        if k < a.code.len() {
            assert(c[k] == a.code[k]);
        } else {
            assert(c[k] == b.code[k - a.code.len()]);
        }
    }
}

/// A fragment of one bare opcode, other than `Constant`.
proof fn lemma_fragment_single(op: Op, l: u16, pool: int, n: int)
    requires
        op != Op::Constant,
        0 <= pool <= MAX_CONSTANTS,
    ensures
        fragment_wf(
            ParseOut {
                next: n,
                code: seq![BytecodeOp::Op(op)],
                lines: seq![l],
                consts: Seq::empty(),
            },
            pool,
        ),
{
}

/// Everything a prefix action emits is a well-formed fragment.
proof fn lemma_prefix_wf(src: Seq<char>, toks: Seq<Token>, i: int, pool: int)
    requires
        0 <= i <= toks.len(),
        0 <= pool <= MAX_CONSTANTS,
    ensures
        sp_prefix(src, toks, i, pool) matches Ok(r0) ==> fragment_wf(r0, pool),
    decreases toks.len() - i, 1int,
{
    match sp_prefix(src, toks, i, pool) {
        Ok(_) => {
            let t = tok_at(toks, i);
            match spec_rule(t.tokentype).prefix {
                Some(PrefixRule::Grouping) => {
                    assert(i < toks.len());
                    lemma_parse_precedence_wf(
                        src,
                        toks,
                        i + 1,
                        Precedence::Assignment.spec_level(),
                        pool,
                    );
                },
                _ => {},
            }
        },
        Err(_) => {},
    }
}

/// Everything the Pratt engine emits is a well-formed fragment.
pub proof fn lemma_parse_precedence_wf(
    src: Seq<char>,
    toks: Seq<Token>,
    i: int,
    minlvl: int,
    pool: int,
)
    requires
        0 <= i <= toks.len(),
        0 <= pool <= MAX_CONSTANTS,
    ensures
        sp_parse_precedence(src, toks, i, minlvl, pool) matches Ok(out) ==> fragment_wf(
            out,
            pool,
        ),
    decreases toks.len() - i, 2int,
{
    lemma_prefix_wf(src, toks, i, pool);
    match sp_prefix(src, toks, i, pool) {
        Ok(r0) => {
            let n0 = if i < toks.len() {
                step_idx(r0.next, i, toks.len() as int)
            } else {
                i
            };
            lemma_infix_wf(src, toks, n0, minlvl, pool + r0.consts.len());
            match sp_infix_loop(src, toks, n0, minlvl, pool + r0.consts.len()) {
                Ok(r1) => {
                    lemma_fragment_concat(r0, r1, pool, 0);
                },
                Err(_) => {},
            }
        },
        Err(_) => {},
    }
}

/// Everything the infix fold emits is a well-formed fragment.
proof fn lemma_infix_wf(src: Seq<char>, toks: Seq<Token>, j: int, minlvl: int, pool: int)
    requires
        0 <= j <= toks.len(),
        0 <= pool <= MAX_CONSTANTS,
    ensures
        sp_infix_loop(src, toks, j, minlvl, pool) matches Ok(out) ==> fragment_wf(out, pool),
    decreases toks.len() - j, 1int,
{
    let t = tok_at(toks, j);
    let rule = spec_rule(t.tokentype);
    if rule.precedence.spec_level() >= minlvl && j < toks.len() {
        match rule.infix {
            Some(InfixRule::Binary) => {
                lemma_parse_precedence_wf(
                    src,
                    toks,
                    j + 1,
                    rule.precedence.spec_next().spec_level(),
                    pool,
                );
                match sp_parse_precedence(
                    src,
                    toks,
                    j + 1,
                    rule.precedence.spec_next().spec_level(),
                    pool,
                ) {
                    Ok(r1) => {
                        match spec_binary_opcode(t.tokentype) {
                            Some(op) => {
                                let nxt = step_idx(r1.next, j, toks.len() as int);
                                lemma_infix_wf(src, toks, nxt, minlvl, pool + r1.consts.len());
                                match sp_infix_loop(src, toks, nxt, minlvl, pool
                                    + r1.consts.len()) {
                                    Ok(r2) => {
                                        let unit = ParseOut {
                                            next: 0,
                                            code: seq![BytecodeOp::Op(op)],
                                            lines: seq![spec_line16(t.line)],
                                            consts: Seq::empty(),
                                        };
                                        lemma_fragment_single(
                                            op,
                                            spec_line16(t.line),
                                            pool + r1.consts.len(),
                                            0,
                                        );
                                        lemma_fragment_concat(r1, unit, pool, 0);
                                        let r1u = ParseOut {
                                            next: 0,
                                            code: r1.code + unit.code,
                                            lines: r1.lines + unit.lines,
                                            consts: r1.consts + Seq::empty(),
                                        };
                                        lemma_fragment_concat(r1u, r2, pool, 0);
                                        assert(r1.consts + Seq::<Value>::empty() =~= r1.consts);
                                        assert(r1.code + seq![BytecodeOp::Op(op)] + r2.code
                                            =~= (r1.code + unit.code) + r2.code);
                                        assert(r1.lines + seq![spec_line16(t.line)] + r2.lines
                                            =~= (r1.lines + unit.lines) + r2.lines);
                                        assert(r1.consts + r2.consts =~= (r1.consts + Seq::<
                                            Value,
                                        >::empty()) + r2.consts);
                                    },
                                    Err(_) => {},
                                }
                            },
                            None => {},
                        }
                    },
                    Err(_) => {},
                }
            },
            _ => {},
        }
    }
}

/// Everything a statement emits is a well-formed fragment.
proof fn lemma_statement_wf(src: Seq<char>, toks: Seq<Token>, i: int, pool: int)
    requires
        0 <= i <= toks.len(),
        0 <= pool <= MAX_CONSTANTS,
    ensures
        sp_statement(src, toks, i, pool) matches Ok(out) ==> fragment_wf(out, pool),
    decreases toks.len() - i, 3int,
{
    if tok_at(toks, i).tokentype == TokenType::Keyword(Keyword::Assert) && i < toks.len() {
        lemma_parse_precedence_wf(src, toks, i + 1, Precedence::Assignment.spec_level(), pool);
        match sp_parse_precedence(src, toks, i + 1, Precedence::Assignment.spec_level(), pool) {
            Ok(r1) => {
                let line = tok_at(toks, r1.next - 1).line;
                let unit = ParseOut {
                    next: 0,
                    code: seq![BytecodeOp::Op(Op::Assert)],
                    lines: seq![spec_line16(line)],
                    consts: Seq::empty(),
                };
                lemma_fragment_single(Op::Assert, spec_line16(line), pool + r1.consts.len(), 0);
                lemma_fragment_concat(r1, unit, pool, 0);
                assert(r1.consts + Seq::<Value>::empty() =~= r1.consts);
            },
            Err(_) => {},
        }
    } else {
        lemma_parse_precedence_wf(src, toks, i, Precedence::Assignment.spec_level(), pool);
    }
}

/// The data-model invariant of compiled chunks, proved of the compiler's
/// mirror: a whole program's emission has a line entry per unit, holds at
/// most 256 constants, never emits a jump operand, and every constant-pool
/// index operand stands right after a `Constant` opcode and points into the
/// pool.
pub proof fn lemma_program_wf(src: Seq<char>, toks: Seq<Token>, i: int, pool: int)
    requires
        0 <= i <= toks.len(),
        0 <= pool <= MAX_CONSTANTS,
    ensures
        sp_program(src, toks, i, pool) matches Ok(out) ==> fragment_wf(out, pool),
    decreases toks.len() - i, 4int,
{
    if i >= toks.len() {
    } else {
        lemma_statement_wf(src, toks, i, pool);
        match sp_statement(src, toks, i, pool) {
            Ok(r1) => {
                let nxt = step_idx(r1.next, i, toks.len() as int);
                lemma_program_wf(src, toks, nxt, pool + r1.consts.len());
                match sp_program(src, toks, nxt, pool + r1.consts.len()) {
                    Ok(r2) => {
                        lemma_fragment_concat(r1, r2, pool, 0);
                    },
                    Err(_) => {},
                }
            },
            Err(_) => {},
        }
    }
}

/// A chunk built from a whole program's emission satisfies the chunk
/// invariant.
pub proof fn lemma_compiled_chunk_wf(c: Chunk, src: Seq<char>, toks: Seq<Token>, out: ParseOut)
    requires
        sp_program(src, toks, 0, 0) == Ok::<ParseOut, CompileError>(out),
        c.codes@ == out.code,
        c.lines@ == out.lines,
        c.constants@ == out.consts,
    ensures
        c.wf(),
{
    lemma_program_wf(src, toks, 0, 0);
}

} // verus!
