//! The compiler's per-function state.
//!
//! The local-variable records and scope depth are structural placeholders
//! for future block scoping: no current statement form populates them. The
//! parser emits into the compiler's function object, which owns the chunk
//! being built.

use vstd::prelude::*;

use crate::chunk::Chunk;
use crate::object::Object;
use crate::object::ObjFucntion;
use crate::object::ObjectType;
use crate::token::Token;

verus! {

/// A local-variable record (an extension point; nothing populates it).
#[derive(Debug)]
pub struct Local {
    pub name: Token,
    pub depth: usize,
    pub captured: bool,
}

/// What kind of function is being compiled. Only `Script` — the top-level
/// program — is produced today.
#[derive(Debug, Clone, Copy, PartialEq, Eq, Structural)]
pub enum FuncType {
    Function,
    Initializer,
    Method,
    Script,
}

/// The state of one function compilation: its kind, the function object
/// (and chunk) being filled, and the scoping placeholders.
#[derive(Debug)]
pub struct Compiler {
    pub functype: FuncType,
    pub function: ObjFucntion,
    pub scope_depth: usize,
    pub locals: Vec<Local>,
}

impl Compiler {
    /// A compiler for the top-level script: an empty chunk, arity zero.
    pub fn new(name: String) -> (r: Compiler)
        ensures
            r.function.chunk.codes@.len() == 0,
            r.function.chunk.lines@.len() == 0,
            r.function.chunk.constants@.len() == 0,
            r.function.arity == 0,
            r.functype == FuncType::Script,
    {
        Compiler {
            functype: FuncType::Script,
            function: ObjFucntion {
                obj: Object { objecttype: ObjectType::OBJ_FUNCTION, marked: false },
                arity: 0,
                chunk: Chunk::new(),
                name,
            },
            scope_depth: 0,
            locals: Vec::new(),
        }
    }
}

} // verus!
