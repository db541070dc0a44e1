//! Tests of the function graph, the builder and the traversals.

use eir::builder::FunctionBuilder;
use eir::constant::AtomicTerm;
use eir::fun::{Dialect, Function, ValueType};
use eir::graph::BlockEdge;
use eir::op::OpKind;
use eir::pattern::PatternNode;
use eir::validate::{validate, ValidationError};
use eir::FunctionIdent;

fn ident(name: &str, arity: usize) -> FunctionIdent {
    FunctionIdent::new("m".to_string(), name.to_string(), arity)
}

#[test]
fn test_edge() {
    let fun = Function::new(ident("woo", 1));
    let mut b = FunctionBuilder::new(fun);

    let b1 = b.block_insert();
    b.block_set_entry(b1);
    let b1_ret = b.block_arg_insert(b1);

    let b2 = b.block_insert();

    let b3 = b.block_insert();

    let b2v = b.block_value(b2);
    b.op_call_flow(b1, b2v, &vec![]);
    b.op_call_flow(b2, b1_ret, &vec![]);
    b.op_call_flow(b3, b2v, &vec![]);

    let fun = b.finish();

    assert_eq!(fun.block_successors(b1), vec![b2]);
    assert_eq!(fun.block_successors(b2), vec![]);
    assert_eq!(fun.block_successors(b3), vec![b2]);
    assert_eq!(fun.block_predecessors(b1), vec![]);
    assert_eq!(fun.block_predecessors(b2), vec![b1, b3]);
    assert_eq!(fun.block_predecessors(b3), vec![]);
}

#[test]
fn dfs_visits_reachable_only() {
    let fun = Function::new(ident("walk", 0));
    let mut b = FunctionBuilder::new(fun);
    let entry = b.block_insert();
    b.block_set_entry(entry);
    let ret = b.block_arg_insert(entry);
    let mid = b.block_insert();
    let orphan = b.block_insert();
    let midv = b.block_value(mid);
    b.op_call_flow(entry, midv, &vec![]);
    b.op_call_flow(mid, ret, &vec![]);
    // the orphan points into the live graph but nothing reaches it
    b.op_call_flow(orphan, midv, &vec![]);
    let fun = b.finish();

    let order = fun.dfs_iter();
    assert_eq!(order, vec![entry, mid]);
    let post = fun.dfs_post_order_iter();
    assert_eq!(post.len(), 2);
    assert!(post.contains(&entry));
    assert!(post.contains(&mid));
    assert!(!post.contains(&orphan));
    // post-order emits a block only after its successors
    assert_eq!(post, vec![mid, entry]);
}

#[test]
fn dfs_handles_cycles() {
    let fun = Function::new(ident("looping", 0));
    let mut b = FunctionBuilder::new(fun);
    let entry = b.block_insert();
    b.block_set_entry(entry);
    let _ret = b.block_arg_insert(entry);
    let back = b.block_insert();
    let entryv = b.block_value(entry);
    let backv = b.block_value(back);
    b.op_call_flow(entry, backv, &vec![]);
    // an edge back to the entry closes a cycle
    let fun2 = {
        let mut f = b.finish();
        f.op_call_flow(back, entryv, &vec![]);
        f
    };
    let order = fun2.dfs_iter();
    assert_eq!(order.len(), 2);
    let post = fun2.dfs_post_order_iter();
    assert_eq!(post.len(), 2);
}

#[test]
fn block_edges_carry_operand_index() {
    let fun = Function::new(ident("edges", 0));
    let mut b = FunctionBuilder::new(fun);
    let entry = b.block_insert();
    b.block_set_entry(entry);
    let _ret = b.block_arg_insert(entry);
    let t = b.block_insert();
    let e = b.block_insert();
    let tv = b.block_value(t);
    let ev = b.block_value(e);
    let mut f = b.finish();
    let cond = f.value_const(AtomicTerm::Atom("maybe".to_string()));
    f.block_set_op(entry, OpKind::IfBool, &vec![cond, tv, ev]);
    assert_eq!(f.block_edges(entry), vec![BlockEdge(t, 0), BlockEdge(e, 1)]);
}

#[test]
fn constants_are_interned() {
    let mut f = Function::new(ident("consts", 0));
    let a = f.value_const(AtomicTerm::Int(7));
    let b = f.value_const(AtomicTerm::Int(7));
    let c = f.value_const(AtomicTerm::Int(8));
    assert_eq!(a, b);
    assert_ne!(a, c);
    assert!(f.value_is_constant(a));
    match f.value_literal(a) {
        Some(AtomicTerm::Int(v)) => assert_eq!(*v, 7),
        other => panic!("expected an integer literal, got {:?}", other),
    }
    let atom1 = f.value_const(AtomicTerm::Atom("ok".to_string()));
    let atom2 = f.value_const(AtomicTerm::Atom("ok".to_string()));
    assert_eq!(atom1, atom2);
}

#[test]
fn value_kinds_are_queryable() {
    let fun = Function::new(ident("kinds", 0));
    let mut b = FunctionBuilder::new(fun);
    let entry = b.block_insert();
    b.block_set_entry(entry);
    let arg = b.block_arg_insert(entry);
    let bv = b.block_value(entry);
    let f = b.finish();
    assert!(f.value_is_arg(arg));
    assert!(!f.value_is_constant(arg));
    assert_eq!(f.value_arg_definition(arg), Some(entry));
    assert_eq!(f.value_block(bv), Some(entry));
    assert_eq!(f.value_block(arg), None);
    assert_eq!(*f.value_kind(arg), ValueType::Arg(entry));
    assert_eq!(f.block_arg_n(entry, 0), Some(arg));
    assert_eq!(f.block_arg_n(entry, 1), None);
    assert_eq!(f.entry_arg_num(), 1);
    assert_eq!(f.block_entry(), entry);
    assert!(f.iter_constants().is_empty());
}

#[test]
fn validator_accepts_well_formed() {
    let fun = Function::new(ident("good", 0));
    let mut b = FunctionBuilder::new(fun);
    let entry = b.block_insert();
    b.block_set_entry(entry);
    let ret = b.block_arg_insert(entry);
    b.op_call_flow(entry, ret, &vec![]);
    let f = b.finish();
    assert_eq!(validate(&f, Dialect::High), Ok(()));
    assert_eq!(validate(&f, Dialect::Normal), Ok(()));
    assert_eq!(validate(&f, Dialect::CPS), Ok(()));
}

#[test]
fn validator_reports_missing_entry() {
    let f = Function::new(ident("empty", 0));
    assert_eq!(validate(&f, Dialect::High), Err(ValidationError::MissingEntry));
}

#[test]
fn validator_reports_missing_op() {
    let fun = Function::new(ident("stub", 0));
    let mut b = FunctionBuilder::new(fun);
    let entry = b.block_insert();
    b.block_set_entry(entry);
    let _ret = b.block_arg_insert(entry);
    let f = b.finish();
    assert_eq!(
        validate(&f, Dialect::High),
        Err(ValidationError::MissingOp { block: entry })
    );
}

#[test]
fn validator_reports_arity_mismatch() {
    let fun = Function::new(ident("badcall", 0));
    let mut b = FunctionBuilder::new(fun);
    let entry = b.block_insert();
    b.block_set_entry(entry);
    let _ret = b.block_arg_insert(entry);
    let target = b.block_insert();
    let _x = b.block_arg_insert(target);
    let tv = b.block_value(target);
    // the target takes one argument, but none is passed
    b.op_call_flow(entry, tv, &vec![]);
    let f = b.finish();
    assert_eq!(
        validate(&f, Dialect::High),
        Err(ValidationError::BadShape { block: entry })
    );
}

#[test]
fn validator_runs_report_identically() {
    let fun = Function::new(ident("twice", 0));
    let mut b = FunctionBuilder::new(fun);
    let entry = b.block_insert();
    b.block_set_entry(entry);
    let ret = b.block_arg_insert(entry);
    b.op_call_flow(entry, ret, &vec![]);
    let f = b.finish();
    let first = validate(&f, Dialect::High);
    let second = validate(&f, Dialect::High);
    assert_eq!(first, second);

    let broken = Function::new(ident("broken", 0));
    let first = validate(&broken, Dialect::High);
    let second = validate(&broken, Dialect::High);
    assert_eq!(first, second);
}

#[test]
fn entry_with_predecessors_is_rejected() {
    let fun = Function::new(ident("loopy", 0));
    let mut b = FunctionBuilder::new(fun);
    let entry = b.block_insert();
    b.block_set_entry(entry);
    let _ret = b.block_arg_insert(entry);
    let ev = b.block_value(entry);
    let mut f = b.finish();
    // an edge back into the entry block
    f.block_set_op(entry, OpKind::CallFlow, &vec![ev]);
    assert_eq!(
        validate(&f, Dialect::High),
        Err(ValidationError::EntryHasPredecessors)
    );
}

#[test]
fn rewriting_an_op_moves_both_edge_endpoints() {
    let fun = Function::new(ident("rewire", 0));
    let mut b = FunctionBuilder::new(fun);
    let entry = b.block_insert();
    b.block_set_entry(entry);
    let ret = b.block_arg_insert(entry);
    let one = b.block_insert();
    let two = b.block_insert();
    let onev = b.block_value(one);
    let twov = b.block_value(two);
    b.op_call_flow(entry, onev, &vec![]);
    b.op_call_flow(one, ret, &vec![]);
    b.op_call_flow(two, ret, &vec![]);
    let mut f = b.finish();
    assert_eq!(f.block_successors(entry), vec![one]);
    assert_eq!(f.block_predecessors(one), vec![entry]);
    // retarget the entry's jump
    f.block_set_op(entry, OpKind::CallFlow, &vec![twov]);
    assert_eq!(f.block_successors(entry), vec![two]);
    assert_eq!(f.block_predecessors(one), vec![]);
    assert_eq!(f.block_predecessors(two), vec![entry]);
    assert_eq!(validate(&f, Dialect::High), Ok(()));
}

#[test]
fn write_token_names_the_rewritten_value() {
    let fun = Function::new(ident("alias", 0));
    let mut b = FunctionBuilder::new(fun);
    let entry = b.block_insert();
    b.block_set_entry(entry);
    let _ret = b.block_arg_insert(entry);
    let t = b.block_insert();
    let x = b.block_arg_insert(t);
    let mut f = b.finish();
    let c = f.value_const(AtomicTerm::Int(1));
    f.block_args_remove(t, 0);
    let tok = f.value_set_alias(x, c);
    assert_eq!(tok.0, x);
    assert_eq!(*f.value_kind(x), ValueType::Alias(c));
}

#[test]
fn validator_checks_case_arm_binds() {
    let fun = Function::new(ident("armless", 1));
    let mut b = FunctionBuilder::new(fun);
    let entry = b.block_insert();
    b.block_set_entry(entry);
    let _ret = b.block_arg_insert(entry);
    let subject = b.block_arg_insert(entry);
    let arm = b.block_insert();
    let armv = b.block_value(arm);
    let mut f = b.finish();
    // the pattern binds two values, but the arm takes none
    let clause = f.clause_insert(PatternNode::Tuple(vec![PatternNode::Bind, PatternNode::Bind]));
    let handle = f.clause_list_intern(&vec![clause]);
    f.block_set_op(arm, OpKind::Unreachable, &vec![]);
    f.block_set_op(entry, OpKind::Case { clauses: handle }, &vec![subject, armv]);
    assert_eq!(
        validate(&f, Dialect::High),
        Err(ValidationError::BadShape { block: entry })
    );
}
