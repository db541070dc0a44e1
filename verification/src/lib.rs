//! Core intermediate representation and lowering pipeline of an
//! Erlang-family compiler front end.
//!
//! The crate holds a two-layer IR: a high-level scoped expression tree
//! ("HIR") with named variables, and a low-level continuation-passing
//! block graph. The lowering pipeline assigns SSA identifiers, lifts
//! closures into top-level functions, lowers the expression trees into
//! the block graph, and runs the block-graph passes (validation, atomic
//! propagation, branch simplification, tail-call promotion).

use vstd::prelude::*;

pub mod builder;
pub mod constant;
pub mod fun;
pub mod graph;
pub mod hir;
pub mod lambda;
pub mod laws;
pub mod lower;
pub mod module;
pub mod ssa;
pub mod text;
pub mod op;
pub mod pass;
pub mod pattern;
pub mod pool;
pub mod propagate;
pub mod validate;

verus! {

/// Identifies a function by module name, function name and arity.
#[derive(Debug)]
pub struct FunctionIdent {
    pub module: String,
    pub name: String,
    pub arity: usize,
}

impl FunctionIdent {
    /// Two identifiers denote the same function when all three parts agree.
    pub open spec fn eq_spec(self, other: FunctionIdent) -> bool {
        self.module@ == other.module@ && self.name@ == other.name@ && self.arity == other.arity
    }

    pub fn new(module: String, name: String, arity: usize) -> (r: FunctionIdent)
        ensures
            r.module == module,
            r.name == name,
            r.arity == arity,
    {
        FunctionIdent { module, name, arity }
    }

    /// A deep copy whose parts equal the original's.
    pub fn duplicate(&self) -> (r: FunctionIdent)
        ensures
            r.module@ == self.module@,
            r.name@ == self.name@,
            r.arity == self.arity,
    {
        FunctionIdent { module: self.module.clone(), name: self.name.clone(), arity: self.arity }
    }
}

/// A byte range into the source text.
#[derive(Copy, Clone, Debug, PartialEq, Eq, Structural)]
pub struct Span {
    pub start: usize,
    pub end: usize,
}

impl Span {
    pub fn new(start: usize, end: usize) -> (r: Span)
        ensures
            r.start == start && r.end == end,
    {
        Span { start, end }
    }

    /// The span of entities with no source position.
    pub fn dummy() -> (r: Span)
        ensures
            r.start == 0 && r.end == 0,
    {
        Span { start: 0, end: 0 }
    }
}

} // verus!
