//! Tests of the block-graph passes.

use eir::builder::FunctionBuilder;
use eir::constant::AtomicTerm;
use eir::fun::{Dialect, Function, ValueType};
use eir::op::OpKind;
use eir::pass::{promote_tail_calls, simplify_branches};
use eir::propagate::propagate_atomics;
use eir::validate::validate;
use eir::FunctionIdent;

fn ident(name: &str, arity: usize) -> FunctionIdent {
    FunctionIdent::new("m".to_string(), name.to_string(), arity)
}

#[test]
fn propagation_eliminates_uniform_constant_argument() {
    let fun = Function::new(ident("prop", 0));
    let mut b = FunctionBuilder::new(fun);
    let entry = b.block_insert();
    b.block_set_entry(entry);
    let ret = b.block_arg_insert(entry);
    let t = b.block_insert();
    let x = b.block_arg_insert(t);
    let tv = b.block_value(t);
    let mut f = b.finish();
    let c = f.value_const(AtomicTerm::Int(7));
    // the only caller passes the constant
    f.op_call_flow(entry, tv, &vec![c]);
    f.op_call_flow(t, ret, &vec![x]);
    assert_eq!(validate(&f, Dialect::High), Ok(()));

    propagate_atomics(&mut f);

    // the parameter is gone, its uses read the constant, the argument
    // value forwards to the constant
    assert_eq!(f.block_args(t), vec![]);
    assert_eq!(f.block_reads(entry), vec![tv]);
    assert_eq!(f.block_reads(t), vec![ret, c]);
    assert_eq!(*f.value_kind(x), ValueType::Alias(c));
    // no reachable block reads the eliminated argument
    for bi in 0..2usize {
        let blk = eir::fun::Block(bi);
        assert!(!f.block_reads(blk).contains(&x));
        assert!(!f.block_args(blk).contains(&x));
    }
    assert_eq!(validate(&f, Dialect::High), Ok(()));
}

#[test]
fn propagation_leaves_diverging_arguments() {
    let fun = Function::new(ident("mixed", 0));
    let mut b = FunctionBuilder::new(fun);
    let entry = b.block_insert();
    b.block_set_entry(entry);
    let _ret = b.block_arg_insert(entry);
    let left = b.block_insert();
    let right = b.block_insert();
    let t = b.block_insert();
    let _x = b.block_arg_insert(t);
    let _ret2 = b.block_arg_insert(t);
    let lv = b.block_value(left);
    let rv = b.block_value(right);
    let tv = b.block_value(t);
    let mut f = b.finish();
    let c1 = f.value_const(AtomicTerm::Int(1));
    let c2 = f.value_const(AtomicTerm::Int(2));
    let cond = f.value_const(AtomicTerm::Atom("maybe".to_string()));
    f.block_set_op(entry, OpKind::IfBool, &vec![cond, lv, rv]);
    // the two callers pass different constants
    f.op_call_flow(left, tv, &vec![c1, c1]);
    f.op_call_flow(right, tv, &vec![c2, c1]);
    let ret_of_t = f.block_args(t)[1];
    f.op_call_flow(t, ret_of_t, &vec![]);
    propagate_atomics(&mut f);
    // the diverging first parameter stays; the uniform second one goes
    assert_eq!(f.block_args(t).len(), 1);
    assert_eq!(f.block_reads(left).len(), 2);
    assert_eq!(f.block_reads(right).len(), 2);
}

#[test]
fn propagation_skips_blocks_without_predecessors() {
    let fun = Function::new(ident("orphaned", 0));
    let mut b = FunctionBuilder::new(fun);
    let entry = b.block_insert();
    b.block_set_entry(entry);
    let ret = b.block_arg_insert(entry);
    let orphan = b.block_insert();
    let _y = b.block_arg_insert(orphan);
    b.op_call_flow(entry, ret, &vec![]);
    let mut f = b.finish();
    propagate_atomics(&mut f);
    // the unreached block keeps its parameter
    assert_eq!(f.block_args(orphan).len(), 1);
}

#[test]
fn branch_on_true_becomes_jump_to_first_arm() {
    let fun = Function::new(ident("iftrue", 0));
    let mut b = FunctionBuilder::new(fun);
    let entry = b.block_insert();
    b.block_set_entry(entry);
    let ret = b.block_arg_insert(entry);
    let t = b.block_insert();
    let e = b.block_insert();
    let tv = b.block_value(t);
    let ev = b.block_value(e);
    let mut f = b.finish();
    let cond = f.value_const(AtomicTerm::Atom("true".to_string()));
    f.block_set_op(entry, OpKind::IfBool, &vec![cond, tv, ev]);
    f.op_call_flow(t, ret, &vec![]);
    f.op_call_flow(e, ret, &vec![]);

    simplify_branches(&mut f);

    assert_eq!(f.block_kind(entry), Some(OpKind::CallFlow));
    assert_eq!(f.block_reads(entry), vec![tv]);
    // the surviving successor is the constant-selected arm
    assert_eq!(f.block_successors(entry), vec![t]);
    assert!(f.block_predecessors(e).is_empty());
    assert_eq!(validate(&f, Dialect::High), Ok(()));
}

#[test]
fn branch_on_false_becomes_jump_to_second_arm() {
    let fun = Function::new(ident("iffalse", 0));
    let mut b = FunctionBuilder::new(fun);
    let entry = b.block_insert();
    b.block_set_entry(entry);
    let ret = b.block_arg_insert(entry);
    let t = b.block_insert();
    let e = b.block_insert();
    let tv = b.block_value(t);
    let ev = b.block_value(e);
    let mut f = b.finish();
    let cond = f.value_const(AtomicTerm::Atom("false".to_string()));
    f.block_set_op(entry, OpKind::IfBool, &vec![cond, tv, ev]);
    f.op_call_flow(t, ret, &vec![]);
    f.op_call_flow(e, ret, &vec![]);

    simplify_branches(&mut f);

    assert_eq!(f.block_kind(entry), Some(OpKind::CallFlow));
    assert_eq!(f.block_reads(entry), vec![ev]);
    assert_eq!(f.block_successors(entry), vec![e]);
    assert!(f.block_predecessors(t).is_empty());
}

#[test]
fn branch_with_equal_arms_becomes_jump() {
    let fun = Function::new(ident("same", 0));
    let mut b = FunctionBuilder::new(fun);
    let entry = b.block_insert();
    b.block_set_entry(entry);
    let ret = b.block_arg_insert(entry);
    let t = b.block_insert();
    let tv = b.block_value(t);
    let mut f = b.finish();
    let cond = f.value_const(AtomicTerm::Atom("maybe".to_string()));
    f.block_set_op(entry, OpKind::IfBool, &vec![cond, tv, tv]);
    f.op_call_flow(t, ret, &vec![]);

    simplify_branches(&mut f);

    assert_eq!(f.block_kind(entry), Some(OpKind::CallFlow));
    assert_eq!(f.block_reads(entry), vec![tv]);
}

#[test]
fn branch_on_unknown_condition_is_left_alone() {
    let fun = Function::new(ident("opaque", 0));
    let mut b = FunctionBuilder::new(fun);
    let entry = b.block_insert();
    b.block_set_entry(entry);
    let ret = b.block_arg_insert(entry);
    let t = b.block_insert();
    let e = b.block_insert();
    let tv = b.block_value(t);
    let ev = b.block_value(e);
    let mut f = b.finish();
    let cond = f.value_const(AtomicTerm::Atom("maybe".to_string()));
    f.block_set_op(entry, OpKind::IfBool, &vec![cond, tv, ev]);
    f.op_call_flow(t, ret, &vec![]);
    f.op_call_flow(e, ret, &vec![]);

    simplify_branches(&mut f);

    assert_eq!(f.block_kind(entry), Some(OpKind::IfBool));
    assert_eq!(f.block_successors(entry), vec![t, e]);
}

#[test]
fn promotion_rewrites_degenerate_returning_call() {
    let fun = Function::new(ident("promote", 1));
    let mut b = FunctionBuilder::new(fun);
    let entry = b.block_insert();
    b.block_set_entry(entry);
    let ret = b.block_arg_insert(entry);
    let arg = b.block_arg_insert(entry);
    // the return continuation block forwards its value to the caller
    let rb = b.block_insert();
    let rbarg = b.block_arg_insert(rb);
    let rbv = b.block_value(rb);
    b.op_call_flow(rb, ret, &vec![rbarg]);
    // a block whose op never raises, for the exception continuation
    let xb = b.block_insert();
    let xv = b.block_value(xb);
    let mut f = b.finish();
    f.block_set_op(xb, OpKind::Unreachable, &vec![]);
    let callee = f.value_const(AtomicTerm::Atom("callee".to_string()));
    f.block_set_op(entry, OpKind::Call, &vec![rbv, xv, callee, arg]);

    promote_tail_calls(&mut f);

    // the callee and its arguments are unchanged; the call is a tail call
    assert_eq!(f.block_kind(entry), Some(OpKind::CallFlow));
    assert_eq!(f.block_reads(entry), vec![callee, arg]);
    // the degenerate return block lost its incoming edge
    assert!(f.block_predecessors(rb).is_empty());
    assert_eq!(validate(&f, Dialect::CPS), Ok(()));
}

#[test]
fn promotion_keeps_meaningful_return_blocks() {
    let fun = Function::new(ident("keep", 1));
    let mut b = FunctionBuilder::new(fun);
    let entry = b.block_insert();
    b.block_set_entry(entry);
    let ret = b.block_arg_insert(entry);
    let arg = b.block_arg_insert(entry);
    // this return continuation does more: it discards the result
    let rb = b.block_insert();
    let _rbarg = b.block_arg_insert(rb);
    let rbv = b.block_value(rb);
    b.op_call_flow(rb, ret, &vec![arg]);
    let xb = b.block_insert();
    let xv = b.block_value(xb);
    let mut f = b.finish();
    f.block_set_op(xb, OpKind::Unreachable, &vec![]);
    let callee = f.value_const(AtomicTerm::Atom("callee".to_string()));
    f.block_set_op(entry, OpKind::Call, &vec![rbv, xv, callee, arg]);

    promote_tail_calls(&mut f);

    assert_eq!(f.block_kind(entry), Some(OpKind::Call));
}

#[test]
fn propagation_is_a_no_op_on_constant_return() {
    // the shape `foo() -> 42.` lowers to: one block tail-calling the
    // return continuation with the constant
    let fun = Function::new(ident("fortytwo", 0));
    let mut b = FunctionBuilder::new(fun);
    let entry = b.block_insert();
    b.block_set_entry(entry);
    let ret = b.block_arg_insert(entry);
    let mut f = b.finish();
    let c = f.value_const(AtomicTerm::Int(42));
    f.op_call_flow(entry, ret, &vec![c]);
    let args_before = f.block_args(entry);
    let reads_before = f.block_reads(entry);

    propagate_atomics(&mut f);

    assert_eq!(f.block_args(entry), args_before);
    assert_eq!(f.block_reads(entry), reads_before);
    assert_eq!(f.blocks.len(), 1);
}

#[test]
fn propagation_runs_to_a_fixed_point() {
    // a chain: the entry feeds a constant into the first block, which
    // forwards its argument into the second; the first elimination makes
    // the second one possible
    let fun = Function::new(ident("chain", 0));
    let mut b = FunctionBuilder::new(fun);
    let entry = b.block_insert();
    b.block_set_entry(entry);
    let ret = b.block_arg_insert(entry);
    let b1 = b.block_insert();
    let x = b.block_arg_insert(b1);
    let b2 = b.block_insert();
    let y = b.block_arg_insert(b2);
    let b1v = b.block_value(b1);
    let b2v = b.block_value(b2);
    let mut f = b.finish();
    let c = f.value_const(AtomicTerm::Int(9));
    f.op_call_flow(entry, b1v, &vec![c]);
    f.op_call_flow(b1, b2v, &vec![x]);
    f.op_call_flow(b2, ret, &vec![y]);

    propagate_atomics(&mut f);

    // both parameters are gone and both argument values forward to the
    // one constant
    assert!(f.block_args(b1).is_empty());
    assert!(f.block_args(b2).is_empty());
    assert_eq!(*f.value_kind(x), ValueType::Alias(c));
    assert_eq!(*f.value_kind(y), ValueType::Alias(c));
    assert_eq!(f.block_reads(b2), vec![ret, c]);
    assert_eq!(validate(&f, Dialect::High), Ok(()));
}
