//! Heap objects: the function object and its header.
//!
//! The `marked` flag is a placeholder for a future tracing collector; no
//! collection runs, so an object lives until its virtual machine is torn
//! down.

use vstd::prelude::*;

use crate::chunk::Chunk;

verus! {

/// The kinds of heap object the machine can own.
#[allow(non_camel_case_types)]
#[derive(Debug, Clone, Copy, PartialEq, Eq, Structural)]
pub enum ObjectType {
    OBJ_FUNCTION,
    OBJ_NATIVE,
}

/// The common header of every heap object.
#[derive(Debug, Clone, Copy, PartialEq, Eq, Structural)]
pub struct Object {
    pub objecttype: ObjectType,
    pub marked: bool,
}

/// A function object: its declared arity, the chunk it owns, and its name.
/// The current compiler creates exactly one per compilation — the top-level
/// script.
#[derive(Debug)]
pub struct ObjFucntion {
    pub obj: Object,
    pub arity: u8,
    pub chunk: Chunk,
    pub name: String,
}

} // verus!
