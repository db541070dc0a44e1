//! The closed set of operation kinds a block can carry.
//!
//! An op's operands live in the block's read list; the layout of that list
//! is a convention per kind, written beside each variant. Every operand
//! that is a block value is an outgoing edge of the block.

use vstd::prelude::*;
use crate::fun::FunRef;
use crate::pool::ListHandle;

verus! {

/// The operation of a block. A block with no op is under construction.
#[derive(Copy, Clone, Debug, PartialEq, Eq, Structural)]
pub enum OpKind {
    /// Invoke a callable value with arguments and never return here:
    /// a jump when the target is a block, a tail call otherwise.
    /// Reads: `[target, args...]`.
    CallFlow,
    /// Returning call. Reads: `[return_cont, exception_cont, callee, args...]`.
    /// Forbidden in the CPS dialect.
    Call,
    /// Two-way branch on a boolean. Reads: `[cond, true_target, false_target]`.
    IfBool,
    /// High-level pattern match; `clauses` indexes the function's clause
    /// pool. Reads: `[subject, arm per clause...]`; arm `i` is invoked with
    /// the values bound by clause `i`. Only allowed in the High dialect.
    Case { clauses: ListHandle },
    /// Materialize the named function as a callable value.
    /// Reads: `[cont]`; the continuation receives the callable.
    CaptureFunction(FunRef),
    /// Materialize a closure over the captures for the named lifted
    /// function. Reads: `[cont, captures...]`.
    BindClosure { fun: FunRef, env: usize },
    /// Construct a tuple. Reads: `[cont, elems...]`.
    MakeTuple,
    /// Construct a list cell. Reads: `[cont, head, tail]`.
    MakeCons,
    /// Control never reaches here. Reads: `[]`.
    Unreachable,
}

impl OpKind {
    /// Whether the op may appear in a graph of the given dialect level.
    pub open spec fn allowed_in(self, dialect: crate::fun::Dialect) -> bool {
        match self {
            OpKind::Case { .. } => dialect == crate::fun::Dialect::High,
            OpKind::Call => dialect != crate::fun::Dialect::CPS,
            _ => true,
        }
    }
}

} // verus!
