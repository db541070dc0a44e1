//! Lowering the scoped expression trees into the block graph.
//!
//! Expressions become blocks: each sub-expression is lowered in the
//! context of a current block and a continuation value, and passes its
//! result by invoking the continuation. Control-flow constructs become
//! multi-successor ops. A returning call passes a fresh return
//! continuation and an exception continuation; tail-call promotion later
//! turns the degenerate return continuations into tail calls. Pattern
//! matches are emitted as the high-level case op: compiling them to a
//! decision tree is a later pass, deliberately left open here.

use vstd::prelude::*;
use crate::fun::{Block, Function, Value};
use crate::hir::{HirExpr, HirPattern};
use crate::op::OpKind;
use crate::pattern::PatternNode;
use crate::text::usize_to_string;
use crate::FunctionIdent;

verus! {

/// Why lowering stopped. Both report compiler bugs in the caller: the
/// input was not properly SSA-assigned or extracted.
#[derive(Debug)]
pub enum LowerError {
    /// A variable reference carries an identifier no binder introduced.
    UnboundValue { ssa: u64 },
    /// A body sequence is empty.
    EmptyBody,
    /// A closure literal survived lambda extraction.
    ClosureNotLifted,
}

impl Function {
    /// Every value the lowering environment maps to is a value of `self`.
    pub open spec fn env_ok(self, env: Seq<(u64, Value)>) -> bool {
        forall|j: int| 0 <= j < env.len() ==> self.valid_value((#[trigger] env[j]).1)
    }

    /// How one lowering step may change the function: blocks and values
    /// are only added, no block other than `block` changes its
    /// arguments, reads or op, and `block` keeps its arguments.
    pub open spec fn grows_from(self, pre: Function, block: Block) -> bool {
        &&& self.values_retained(pre)
        &&& self.misc_retained(pre)
        &&& pre.blocks@.len() <= self.blocks@.len()
        &&& forall|b: Block|
            pre.valid_block(b) && b != block ==> #[trigger] self.args_seq(b) == pre.args_seq(b)
                && self.reads_seq(b) == pre.reads_seq(b) && self.op_of(b) == pre.op_of(b)
        &&& self.args_seq(block) == pre.args_seq(block)
    }
}

/// Extend a growth history by one step that only touches `touched`,
/// which is either the block under construction or one that `a` did not
/// have yet.
proof fn lemma_grows_step(a: Function, b: Function, c: Function, block: Block, touched: Block)
    requires
        b.grows_from(a, block),
        c.values_retained(b),
        c.misc_retained(b),
        b.blocks@.len() <= c.blocks@.len(),
        forall|bk: Block|
            b.valid_block(bk) && bk != touched ==> #[trigger] c.args_seq(bk) == b.args_seq(bk)
                && c.reads_seq(bk) == b.reads_seq(bk) && c.op_of(bk) == b.op_of(bk),
        touched == block || !a.valid_block(touched),
        c.args_seq(block) == b.args_seq(block),
    ensures
        c.grows_from(a, block),
{
    assert forall|v: Value| a.valid_value(v) implies #[trigger] c.kind_of(v) == a.kind_of(v) by {
        assert(b.kind_of(v) == a.kind_of(v));
        assert(b.valid_value(v));
    }
    assert forall|bk: Block| a.valid_block(bk) implies #[trigger] c.block_value_of(bk)
        == a.block_value_of(bk) by {
        assert(b.block_value_of(bk) == a.block_value_of(bk));
        assert(b.valid_block(bk));
    }
    assert forall|f2: crate::fun::FunRef| a.valid_fun_ref(f2) implies #[trigger] c.fun_refs@[f2.0 as int]
        == a.fun_refs@[f2.0 as int] by {
        assert(b.fun_refs@[f2.0 as int] == a.fun_refs@[f2.0 as int]);
        assert(b.valid_fun_ref(f2));
    }
    assert forall|c2: crate::constant::Const|
        a.constant_container.valid_const(c2) implies #[trigger] c.constant_container.term_of(c2)
        == a.constant_container.term_of(c2) by {
        assert(b.constant_container.term_of(c2) == a.constant_container.term_of(c2));
        assert(b.constant_container.valid_const(c2));
    }
    assert forall|c2: crate::pattern::PatternClause|
        a.pattern_container.valid_clause(c2) implies #[trigger] c.pattern_container.clause_pattern(
        c2,
    ) == a.pattern_container.clause_pattern(c2) && c.pattern_container.clause_binds(c2)
        == a.pattern_container.clause_binds(c2) by {
        assert(b.pattern_container.clause_pattern(c2) == a.pattern_container.clause_pattern(c2));
        assert(b.pattern_container.clause_binds(c2) == a.pattern_container.clause_binds(c2));
        assert(b.pattern_container.valid_clause(c2));
    }
    assert forall|bk: Block| a.valid_block(bk) && bk != block implies #[trigger] c.args_seq(bk)
        == a.args_seq(bk) && c.reads_seq(bk) == a.reads_seq(bk) && c.op_of(bk) == a.op_of(bk) by {
        assert(b.args_seq(bk) == a.args_seq(bk));
        assert(b.valid_block(bk));
        assert(bk != touched);
        assert(c.args_seq(bk) == b.args_seq(bk));
    }
}

/// A step that keeps the shape of every block it already had extends
/// any growth history.
proof fn lemma_grows_step_all(a: Function, b: Function, c: Function, block: Block)
    requires
        a.valid_block(block),
        b.grows_from(a, block),
        c.values_retained(b),
        c.misc_retained(b),
        b.blocks@.len() <= c.blocks@.len(),
        forall|bk: Block|
            b.valid_block(bk) ==> #[trigger] c.args_seq(bk) == b.args_seq(bk) && c.reads_seq(bk)
                == b.reads_seq(bk) && c.op_of(bk) == b.op_of(bk),
    ensures
        c.grows_from(a, block),
{
    assert forall|v: Value| a.valid_value(v) implies #[trigger] c.kind_of(v) == a.kind_of(v) by {
        assert(b.kind_of(v) == a.kind_of(v));
        assert(b.valid_value(v));
    }
    assert forall|bk: Block| a.valid_block(bk) implies #[trigger] c.block_value_of(bk)
        == a.block_value_of(bk) by {
        assert(b.block_value_of(bk) == a.block_value_of(bk));
        assert(b.valid_block(bk));
    }
    lemma_misc_chain(a, b, c);
    assert forall|bk: Block| a.valid_block(bk) && bk != block implies #[trigger] c.args_seq(bk)
        == a.args_seq(bk) && c.reads_seq(bk) == a.reads_seq(bk) && c.op_of(bk) == a.op_of(bk) by {
        assert(b.args_seq(bk) == a.args_seq(bk));
        assert(b.valid_block(bk));
        assert(c.args_seq(bk) == b.args_seq(bk));
    }
    assert(c.args_seq(block) == b.args_seq(block)) by {
        assert(b.valid_block(block));
    }
}

/// A step that keeps every block's shape extends any growth history.
proof fn lemma_grows_step_retained(a: Function, b: Function, c: Function, block: Block)
    requires
        a.valid_block(block),
        b.grows_from(a, block),
        c.values_retained(b),
        c.misc_retained(b),
        c.blocks_retained(b),
    ensures
        c.grows_from(a, block),
{
    assert forall|bk: Block|
        b.valid_block(bk) implies #[trigger] c.args_seq(bk) == b.args_seq(bk) && c.reads_seq(bk)
        == b.reads_seq(bk) && c.op_of(bk) == b.op_of(bk) by {
        assert(c.same_block_shape(b, bk));
    }
    lemma_grows_step_all(a, b, c, block);
}

/// One `block_arg_insert` on a block `a` did not have extends any
/// growth history.
proof fn lemma_grows_step_arg(a: Function, b: Function, c: Function, block: Block, ab: Block)
    requires
        a.valid_block(block),
        b.grows_from(a, block),
        c.values_retained(b),
        c.misc_retained(b),
        c.blocks@.len() == b.blocks@.len(),
        forall|bk: Block|
            b.valid_block(bk) && bk != ab ==> #[trigger] c.same_block_shape(b, bk),
        !a.valid_block(ab),
        ab != block,
    ensures
        c.grows_from(a, block),
{
    assert forall|bk: Block|
        b.valid_block(bk) && bk != ab implies #[trigger] c.args_seq(bk) == b.args_seq(bk)
        && c.reads_seq(bk) == b.reads_seq(bk) && c.op_of(bk) == b.op_of(bk) by {
        assert(c.same_block_shape(b, bk));
    }
    assert(b.valid_block(block));
    assert(c.args_seq(block) == b.args_seq(block)) by {
        assert(c.same_block_shape(b, block));
    }
    lemma_grows_step(a, b, c, block, ab);
}

/// A function grows from itself.
proof fn lemma_grows_refl(f: Function, block: Block)
    ensures
        f.grows_from(f, block),
{
    assert forall|v: Value| f.valid_value(v) implies #[trigger] f.kind_of(v) == f.kind_of(v) by {}
}

/// Growing the function keeps the environment's values valid.
proof fn lemma_env_still_ok(pre: Function, post: Function, env: Seq<(u64, Value)>)
    requires
        pre.env_ok(env),
        post.values_retained(pre),
    ensures
        post.env_ok(env),
{
    assert forall|j: int| 0 <= j < env.len() implies post.valid_value((#[trigger] env[j]).1) by {
        assert(pre.valid_value(env[j].1));
    }
}

/// Look an identifier up in the lowering environment, newest first.
fn env_lookup(env: &Vec<(u64, Value)>, ssa: u64) -> (r: Option<Value>)
    ensures
        match r {
            Some(v) => exists|j: int| 0 <= j < env@.len() && env@[j] == (ssa, v),
            None => true,
        },
{
    let mut i = env.len();
    while i > 0
        invariant
            i <= env@.len(),
        decreases i,
    {
        i = i - 1;
        if env[i].0 == ssa {
            return Some(env[i].1);
        }
    }
    None
}

/// Convert a scoped pattern into an anonymous pattern node, collecting
/// the bound identifiers in depth-first order: the clause's arm receives
/// one argument per bound variable, in this order.
#[verifier::loop_isolation(false)]
pub fn convert_pattern(p: &HirPattern, binds: &mut Vec<u64>) -> (r: PatternNode)
    ensures
        final(binds)@.len() == old(binds)@.len() + r.bind_count(),
    decreases p,
{
    match p {
        HirPattern::Wildcard => PatternNode::Wildcard,
        HirPattern::BindVar(v) => {
            binds.push(v.ssa);
            PatternNode::Bind
        },
        HirPattern::Tuple(elems) => {
            let mut out: Vec<PatternNode> = Vec::new();
            let n = elems.len();
            let mut i: usize = 0;
            proof {
                reveal_with_fuel(PatternNode::bind_count_list, 2);
                assert(out@ =~= Seq::<PatternNode>::empty());
                assert(PatternNode::bind_count_list(out@) == 0);
            }
            while i < n
                invariant
                    i <= n,
                    n == elems@.len(),
                    out@.len() == i,
                    binds@.len() == old(binds)@.len() + PatternNode::bind_count_list(out@),
                decreases n - i,
            {
                let ghost before = out@;
                let node = convert_pattern(&elems[i], binds);
                out.push(node);
                proof {
                    lemma_bind_count_push(before, node);
                }
                i = i + 1;
            }
            PatternNode::Tuple(out)
        },
        HirPattern::Cons(h, t) => {
            let hn = convert_pattern(h, binds);
            let tn = convert_pattern(t, binds);
            PatternNode::Cons(Box::new(hn), Box::new(tn))
        },
        HirPattern::Atomic(term) => PatternNode::Atomic(term.duplicate()),
    }
}

/// The bind count of a node list grows by the appended node's count.
proof fn lemma_bind_count_push(ps: Seq<PatternNode>, p: PatternNode)
    ensures
        PatternNode::bind_count_list(ps.push(p)) == PatternNode::bind_count_list(ps)
            + p.bind_count(),
    decreases ps,
{
    reveal_with_fuel(PatternNode::bind_count_list, 2);
    if ps.len() == 0 {
        assert(ps.push(p)[0] == p);
        assert(ps.push(p).drop_first() =~= Seq::<PatternNode>::empty());
        assert(PatternNode::bind_count_list(Seq::<PatternNode>::empty()) == 0);
    } else {
        assert(ps.push(p)[0] == ps[0]);
        assert(ps.push(p).drop_first() =~= ps.drop_first().push(p));
        lemma_bind_count_push(ps.drop_first(), p);
        assert(PatternNode::bind_count_list(ps.drop_first().push(p))
            == PatternNode::bind_count_list(ps.drop_first()) + p.bind_count());
    }
}

/// Append the values of one list to another.
fn append_values(out: &mut Vec<Value>, vals: &Vec<Value>)
    ensures
        final(out)@ == old(out)@ + vals@,
{
    let n = vals.len();
    let mut i: usize = 0;
    proof {
        assert(out@ =~= old(out)@ + vals@.take(0));
    }
    while i < n
        invariant
            i <= n,
            n == vals@.len(),
            out@ == old(out)@ + vals@.take(i as int),
        decreases n - i,
    {
        out.push(vals[i]);
        proof {
            assert(old(out)@ + vals@.take(i + 1) =~= (old(out)@ + vals@.take(i as int)).push(
                vals@[i as int],
            ));
        }
        i = i + 1;
    }
    proof {
        assert(vals@.take(n as int) =~= vals@);
    }
}

/// Lower an expression so that its result becomes available as a value:
/// code is emitted starting at `block` (which has no op yet), and the
/// returned block (again op-less) continues with the returned value.
#[verifier::loop_isolation(false)]
pub fn lower_value(
    f: &mut Function,
    env: &mut Vec<(u64, Value)>,
    module_name: &String,
    host_name: &String,
    exc: &mut Option<Value>,
    block: Block,
    e: &HirExpr,
) -> (r: Result<(Block, Value), LowerError>)
    requires
        old(f).wf(),
        old(f).graph_wf(),
        old(f).valid_block(block),
        old(f).op_of(block) is None,
        old(f).env_ok(old(env)@),
        match *old(exc) {
            Some(x) => old(f).valid_value(x),
            None => true,
        },
        e.closure_free(),
    ensures
        final(f).wf(),
        final(f).graph_wf(),
        final(f).grows_from(*old(f), block),
        final(f).env_ok(final(env)@),
        match *final(exc) {
            Some(x) => final(f).valid_value(x),
            None => true,
        },
        match r {
            Ok((bout, v)) => final(f).valid_block(bout) && final(f).op_of(bout) is None
                && final(f).valid_value(v) && (bout == block || !old(f).valid_block(bout)) && (bout
                == block || final(f).op_of(block) is Some),
            Err(_) => true,
        },
    decreases e, 1int,
{
    let ghost f0 = *f;
    match e {
        HirExpr::Variable(v) => {
            match env_lookup(env, v.ssa) {
                Some(val) => {
                    proof {
                        let j = choose|j: int| 0 <= j < env@.len() && env@[j] == (v.ssa, val);
                        assert(f.valid_value(env@[j].1));
                        lemma_grows_refl(*f, block);
                        assert(f.op_of(block) is None);
                        assert(f.valid_block(block));
                    }
                    Ok((block, val))
                },
                None => {
                    proof {
                        lemma_grows_refl(*f, block);
                    }
                    Err(LowerError::UnboundValue { ssa: v.ssa })
                },
            }
        },
        HirExpr::Atomic(term) => {
            let val = f.value_const(term.duplicate());
            proof {
                lemma_env_still_ok(f0, *f, env@);
                lemma_grows_refl(f0, block);
                lemma_grows_step_retained(f0, f0, *f, block);
                assert(f.op_of(block) is None) by {
                    assert(f.same_block_shape(f0, block));
                }
            }
            Ok((block, val))
        },
        HirExpr::Match { var, value } => {
            let r = lower_value(f, env, module_name, host_name, exc, block, value);
            match r {
                Ok((bout, val)) => {
                    env.push((var.ssa, val));
                    proof {
                        assert forall|j: int| 0 <= j < env@.len() implies f.valid_value(
                            (#[trigger] env@[j]).1,
                        ) by {
                            if j < env@.len() - 1 {
                            } else {
                                assert(env@[j].1 == val);
                            }
                        }
                    }
                    Ok((bout, val))
                },
                Err(er) => Err(er),
            }
        },
        HirExpr::Body { exprs } => {
            let n = exprs.len();
            if n == 0 {
                return Err(LowerError::EmptyBody);
            }
            let mut cur = block;
            let mut last: Option<Value> = None;
            let mut i: usize = 0;
            proof {
                assert(HirExpr::closure_free_list(exprs@.skip(0))) by {
                    assert(exprs@.skip(0) =~= exprs@);
                }
            }
            while i < n
                invariant
                    i <= n,
                    n == exprs@.len(),
                    f.wf(),
                    f.graph_wf(),
                    f.valid_block(cur),
                    f.op_of(cur) is None,
                    f.grows_from(f0, block),
                    cur == block || !f0.valid_block(cur),
                    cur == block || f.op_of(block) is Some,
                    f.env_ok(env@),
                    match *exc {
                        Some(x) => f.valid_value(x),
                        None => true,
                    },
                    match last {
                        Some(v) => f.valid_value(v),
                        None => true,
                    },
                    HirExpr::closure_free_list(exprs@.skip(i as int)),
                decreases n - i,
            {
                proof {
                    assert(exprs@.skip(i as int)[0] == exprs@[i as int]);
                    assert(exprs@.skip(i as int).drop_first() =~= exprs@.skip(i + 1));
                }
                let ghost fcur = *f;
                let rr = lower_value(f, env, module_name, host_name, exc, cur, &exprs[i]);
                proof {
                    assert forall|bk: Block|
                        fcur.valid_block(bk) && bk != cur implies #[trigger] f.args_seq(bk)
                        == fcur.args_seq(bk) && f.reads_seq(bk) == fcur.reads_seq(bk) && f.op_of(
                        bk,
                    ) == fcur.op_of(bk) by {
                        assert(f.args_seq(bk) == fcur.args_seq(bk));
                    }
                    lemma_grows_step(f0, fcur, *f, block, cur);
                }
                let (b2, v2) = match rr {
                    Ok(p) => p,
                    Err(er) => {
                        return Err(er);
                    },
                };
                proof {
                    if b2 != block {
                        if cur == block {
                            assert(b2 == cur || f.op_of(cur) is Some);
                        } else {
                            assert(f.op_of(block) == fcur.op_of(block));
                        }
                    }
                }
                cur = b2;
                last = Some(v2);
                i = i + 1;
            }
            match last {
                Some(v) => Ok((cur, v)),
                None => Err(LowerError::EmptyBody),
            }
        },
        _ => {
            // compound forms: continue in a fresh continuation block
            let k = f.block_insert();
            let ghost fa = *f;
            let karg = f.block_arg_insert(k);
            let ghost fb = *f;
            let kv = f.block_value(k);
            proof {
                lemma_env_still_ok(f0, fa, env@);
                lemma_env_still_ok(fa, fb, env@);
                lemma_grows_refl(f0, block);
                lemma_grows_step_retained(f0, f0, fa, block);
                lemma_grows_step_arg(f0, fa, fb, block, k);
            }
            proof {
                assert(f.op_of(block) is None) by {
                    assert(fa.same_block_shape(f0, block));
                    assert(fb.same_block_shape(fa, block));
                }
            }
            let ghost fmid = *f;
            let rr = lower_tail(f, env, module_name, host_name, exc, block, e, kv);
            proof {
                lemma_grows_step(f0, fmid, *f, block, block);
            }
            match rr {
                Ok(_) => {
                    proof {
                        assert(f.op_of(k) is None) by {
                            assert(fmid.valid_block(k));
                            assert(k != block);
                            assert(f.args_seq(k) == fmid.args_seq(k));
                            assert(f.op_of(k) == fmid.op_of(k));
                        }
                        assert(f.op_of(block) is Some);
                    }
                    Ok((k, karg))
                },
                Err(er) => Err(er),
            }
        },
    }
}

/// Lower an expression in tail position: code is emitted starting at
/// `block`, and the expression's result is passed to the continuation
/// value `cont` (or control is handed over entirely, for calls).
#[verifier::loop_isolation(false)]
pub fn lower_tail(
    f: &mut Function,
    env: &mut Vec<(u64, Value)>,
    module_name: &String,
    host_name: &String,
    exc: &mut Option<Value>,
    block: Block,
    e: &HirExpr,
    cont: Value,
) -> (r: Result<(), LowerError>)
    requires
        old(f).wf(),
        old(f).graph_wf(),
        old(f).valid_block(block),
        old(f).op_of(block) is None,
        old(f).valid_value(cont),
        old(f).env_ok(old(env)@),
        match *old(exc) {
            Some(x) => old(f).valid_value(x),
            None => true,
        },
        e.closure_free(),
    ensures
        final(f).wf(),
        final(f).graph_wf(),
        final(f).grows_from(*old(f), block),
        final(f).env_ok(final(env)@),
        match *final(exc) {
            Some(x) => final(f).valid_value(x),
            None => true,
        },
        r is Ok ==> final(f).op_of(block) is Some,
    decreases e, 0int,
{
    let ghost f0 = *f;
    match e {
        HirExpr::Tuple(elems) => {
            proof {
                assert(HirExpr::closure_free_list(elems@));
            }
            let (cur, vals) = match lower_operands(f, env, module_name, host_name, exc, block, elems) {
                Ok(p) => p,
                Err(er) => {
                    return Err(er);
                },
            };
            let mut reads: Vec<Value> = Vec::new();
            reads.push(cont);
            append_values(&mut reads, &vals);
            let ghost fmid = *f;
            proof {
                assert forall|j: int| 0 <= j < reads@.len() implies f.valid_value(
                    #[trigger] reads@[j],
                ) by {
                    if j == 0 {
                        assert(reads@[0] == cont);
                        assert(f.valid_value(cont)) by {
                            assert(f0.valid_value(cont));
                        }
                    } else {
                        assert(reads@[j] == vals@[j - 1]);
                    }
                }
            }
            f.block_set_op(cur, OpKind::MakeTuple, &reads);
            proof {
                lemma_grows_step(f0, fmid, *f, block, cur);
                lemma_env_still_ok(fmid, *f, env@);
                assert(f.op_of(block) is Some) by {
                    if cur != block {
                        assert(fmid.op_of(block) is Some);
                        assert(f.args_seq(block) == fmid.args_seq(block));
                        assert(f.op_of(block) == fmid.op_of(block));
                    }
                }
            }
            Ok(())
        },
        HirExpr::Cons(h, t) => {
            let (cur1, hv) = match lower_value(f, env, module_name, host_name, exc, block, h) {
                Ok(p) => p,
                Err(er) => {
                    return Err(er);
                },
            };
            let ghost f1 = *f;
            let rr = lower_value(f, env, module_name, host_name, exc, cur1, t);
            proof {
                lemma_grows_step(f0, f1, *f, block, cur1);
            }
            let (cur2, tv) = match rr {
                Ok(p) => p,
                Err(er) => {
                    return Err(er);
                },
            };
            let mut reads: Vec<Value> = Vec::new();
            reads.push(cont);
            reads.push(hv);
            reads.push(tv);
            let ghost fmid = *f;
            proof {
                assert forall|j: int| 0 <= j < reads@.len() implies f.valid_value(
                    #[trigger] reads@[j],
                ) by {
                    assert(reads@[0] == cont && reads@[1] == hv && reads@[2] == tv);
                    assert(f.valid_value(cont)) by {
                        assert(f0.valid_value(cont));
                    }
                    assert(f.valid_value(hv)) by {
                        assert(f1.valid_value(hv));
                    }
                }
            }
            f.block_set_op(cur2, OpKind::MakeCons, &reads);
            proof {
                lemma_grows_step(f0, fmid, *f, block, cur2);
                lemma_env_still_ok(fmid, *f, env@);
                assert(f.op_of(block) is Some) by {
                    if cur2 != block {
                        assert(fmid.op_of(block) is Some) by {
                            if cur1 == block {
                                assert(fmid.op_of(cur1) is Some);
                            } else {
                                assert(f1.op_of(block) is Some);
                                assert(fmid.args_seq(block) == f1.args_seq(block));
                                assert(fmid.op_of(block) == f1.op_of(block));
                            }
                        }
                        assert(f.args_seq(block) == fmid.args_seq(block));
                        assert(f.op_of(block) == fmid.op_of(block));
                    }
                }
            }
            Ok(())
        },
        HirExpr::LocalFunction { name, arity } => {
            let fr = f.fun_ref_insert(
                FunctionIdent { module: module_name.clone(), name: name.clone(), arity: *arity },
            );
            let ghost f1 = *f;
            let mut reads: Vec<Value> = Vec::new();
            reads.push(cont);
            proof {
                lemma_env_still_ok(f0, f1, env@);
                lemma_grows_refl(f0, block);
                lemma_grows_step_retained(f0, f0, f1, block);
                assert forall|j: int| 0 <= j < reads@.len() implies f.valid_value(
                    #[trigger] reads@[j],
                ) by {
                    assert(reads@[0] == cont);
                }
            }
            f.block_set_op(block, OpKind::CaptureFunction(fr), &reads);
            proof {
                lemma_grows_step(f0, f1, *f, block, block);
                lemma_env_still_ok(f1, *f, env@);
                assert(f.op_of(block) is Some);
            }
            Ok(())
        },
        HirExpr::BindClosure { env: env_idx, idx, arity, captures } => {
            // the lifted function's identifier is synthesized from the
            // host function's name and the lambda index
            let mut lname = host_name.clone();
            lname.append("$");
            lname.append(usize_to_string(*idx).as_str());
            let mut cap_vals: Vec<Value> = Vec::new();
            let n = captures.len();
            let mut i: usize = 0;
            while i < n
                invariant
                    i <= n,
                    n == captures@.len(),
                    *f == f0,
                    f.env_ok(env@),
                    forall|j: int|
                        0 <= j < cap_vals@.len() ==> f.valid_value(#[trigger] cap_vals@[j]),
                decreases n - i,
            {
                match env_lookup(env, captures[i].ssa) {
                    Some(v) => {
                        proof {
                            let j = choose|j: int|
                                0 <= j < env@.len() && env@[j] == (captures@[i as int].ssa, v);
                            assert(f.valid_value(env@[j].1));
                        }
                        cap_vals.push(v);
                    },
                    None => {
                        proof {
                            lemma_grows_refl(*f, block);
                        }
                        return Err(LowerError::UnboundValue { ssa: captures[i].ssa });
                    },
                }
                i = i + 1;
            }
            proof {
                lemma_grows_refl(*f, block);
            }
            let fr = f.fun_ref_insert(
                FunctionIdent { module: module_name.clone(), name: lname, arity: *arity },
            );
            let ghost f1 = *f;
            let mut reads: Vec<Value> = Vec::new();
            reads.push(cont);
            append_values(&mut reads, &cap_vals);
            proof {
                lemma_env_still_ok(f0, f1, env@);
                lemma_grows_step_retained(f0, f0, f1, block);
                assert forall|j: int| 0 <= j < reads@.len() implies f.valid_value(
                    #[trigger] reads@[j],
                ) by {
                    if j == 0 {
                        assert(reads@[0] == cont);
                        assert(f0.valid_value(cont));
                    } else {
                        assert(reads@[j] == cap_vals@[j - 1]);
                        assert(f0.valid_value(cap_vals@[j - 1]));
                    }
                }
            }
            f.block_set_op(block, OpKind::BindClosure { fun: fr, env: *env_idx }, &reads);
            proof {
                lemma_grows_step(f0, f1, *f, block, block);
                lemma_env_still_ok(f1, *f, env@);
                assert(f.op_of(block) is Some);
            }
            Ok(())
        },
        HirExpr::Apply { callee, args } => {
            let (cur1, cv) = match lower_value(f, env, module_name, host_name, exc, block, callee) {
                Ok(p) => p,
                Err(er) => {
                    return Err(er);
                },
            };
            let ghost f1 = *f;
            proof {
                assert(HirExpr::closure_free_list(args@));
            }
            let rr = lower_operands(f, env, module_name, host_name, exc, cur1, args);
            proof {
                lemma_grows_step(f0, f1, *f, block, cur1);
            }
            let (cur2, argvals) = match rr {
                Ok(p) => p,
                Err(er) => {
                    return Err(er);
                },
            };
            let ghost f2 = *f;
            let exc_val = ensure_exc_block(f, exc);
            let ghost f3 = *f;
            proof {
                lemma_grows_step_all(f0, f2, f3, block);
                lemma_env_still_ok(f2, f3, env@);
            }
            // the return continuation forwards its one argument to `cont`
            let rb = f.block_insert();
            let ghost f4 = *f;
            let rbarg = f.block_arg_insert(rb);
            let ghost f5 = *f;
            let rbv = f.block_value(rb);
            proof {
                lemma_grows_step_retained(f0, f3, f4, block);
                lemma_grows_step_arg(f0, f4, f5, block, rb);
                lemma_env_still_ok(f3, f4, env@);
                lemma_env_still_ok(f4, f5, env@);
            }
            let mut fwd_args: Vec<Value> = Vec::new();
            fwd_args.push(rbarg);
            proof {
                assert(f.valid_value(cont)) by {
                    assert(f0.valid_value(cont));
                }
            }
            f.op_call_flow(rb, cont, &fwd_args);
            let ghost f6 = *f;
            proof {
                lemma_grows_step(f0, f5, f6, block, rb);
                lemma_env_still_ok(f5, f6, env@);
            }
            let mut reads: Vec<Value> = Vec::new();
            reads.push(rbv);
            reads.push(exc_val);
            reads.push(cv);
            append_values(&mut reads, &argvals);
            proof {
                assert forall|j: int| 0 <= j < reads@.len() implies f.valid_value(
                    #[trigger] reads@[j],
                ) by {
                    if j == 0 {
                        assert(reads@[0] == rbv);
                        assert(f5.valid_value(rbv));
                    } else if j == 1 {
                        assert(reads@[1] == exc_val);
                        assert(f3.valid_value(exc_val));
                    } else if j == 2 {
                        assert(reads@[2] == cv);
                        assert(f1.valid_value(cv));
                    } else {
                        assert(reads@[j] == argvals@[j - 3]);
                        assert(f2.valid_value(argvals@[j - 3]));
                    }
                }
                assert(f.op_of(cur2) is None) by {
                    assert(f2.op_of(cur2) is None);
                    assert(f2.valid_block(cur2));
                    assert(f3.op_of(cur2) == f2.op_of(cur2));
                    assert(f4.op_of(cur2) == f3.op_of(cur2)) by {
                        assert(f4.same_block_shape(f3, cur2));
                    }
                    assert(f5.op_of(cur2) == f4.op_of(cur2)) by {
                        assert(f5.same_block_shape(f4, cur2));
                    }
                    assert(f6.op_of(cur2) == f5.op_of(cur2)) by {
                        assert(cur2 != rb);
                        assert(f6.args_seq(cur2) == f5.args_seq(cur2));
                    }
                }
            }
            f.block_set_op(cur2, OpKind::Call, &reads);
            proof {
                lemma_grows_step(f0, f6, *f, block, cur2);
                lemma_env_still_ok(f6, *f, env@);
                assert(f.op_of(block) is Some) by {
                    if cur2 != block {
                        assert(f2.op_of(block) is Some) by {
                            if cur1 == block {
                                assert(f2.op_of(cur1) is Some);
                            } else {
                                assert(f1.op_of(block) is Some);
                                assert(f2.args_seq(block) == f1.args_seq(block));
                                assert(f2.op_of(block) == f1.op_of(block));
                            }
                        }
                        assert(f3.op_of(block) == f2.op_of(block));
                        assert(f4.op_of(block) == f3.op_of(block)) by {
                            assert(f4.same_block_shape(f3, block));
                        }
                        assert(f5.op_of(block) == f4.op_of(block)) by {
                            assert(f5.same_block_shape(f4, block));
                        }
                        assert(f6.op_of(block) == f5.op_of(block)) by {
                            assert(block != rb);
                            assert(f6.args_seq(block) == f5.args_seq(block));
                        }
                        assert(f.args_seq(block) == f6.args_seq(block));
                        assert(f.op_of(block) == f6.op_of(block));
                    }
                }
            }
            Ok(())
        },
        HirExpr::Case { subject, clauses } => {
            let (cur, sv) = match lower_value(f, env, module_name, host_name, exc, block, subject) {
                Ok(p) => p,
                Err(er) => {
                    return Err(er);
                },
            };
            let mut clause_handles: Vec<crate::pattern::PatternClause> = Vec::new();
            let mut arm_vals: Vec<Value> = Vec::new();
            let n = clauses.len();
            let mut i: usize = 0;
            proof {
                assert(HirExpr::closure_free_clauses(clauses@.skip(0))) by {
                    assert(clauses@.skip(0) =~= clauses@);
                }
            }
            while i < n
                invariant
                    i <= n,
                    n == clauses@.len(),
                    f.wf(),
                    f.graph_wf(),
                    f.valid_block(cur),
                    f.grows_from(f0, block),
                    cur == block || !f0.valid_block(cur),
                    cur == block || f.op_of(block) is Some,
                    f.op_of(cur) is None,
                    f.valid_value(sv),
                    f.env_ok(env@),
                    match *exc {
                        Some(x) => f.valid_value(x),
                        None => true,
                    },
                    arm_vals@.len() == clause_handles@.len(),
                    forall|j: int|
                        0 <= j < clause_handles@.len() ==> f.pattern_container.valid_clause(
                            #[trigger] clause_handles@[j],
                        ),
                    forall|j: int|
                        0 <= j < arm_vals@.len() ==> f.valid_value(#[trigger] arm_vals@[j]),
                    HirExpr::closure_free_clauses(clauses@.skip(i as int)),
                decreases n - i,
            {
                proof {
                    assert(clauses@.skip(i as int)[0] == clauses@[i as int]);
                    assert(clauses@.skip(i as int).drop_first() =~= clauses@.skip(i + 1));
                }
                let ghost floop = *f;
                // the pattern and its bound identifiers, depth first
                let mut binds: Vec<u64> = Vec::new();
                let node = convert_pattern(&clauses[i].pattern, &mut binds);
                let clause = f.clause_insert(node);
                let ghost fc1 = *f;
                proof {
                    lemma_grows_step_retained(f0, floop, fc1, block);
                    lemma_env_still_ok(floop, fc1, env@);
                }
                // the arm block: one parameter per bound variable
                let ab = f.block_insert();
                let ghost fc2 = *f;
                proof {
                    lemma_grows_step_retained(f0, fc1, fc2, block);
                    lemma_env_still_ok(fc1, fc2, env@);
                }
                let m = binds.len();
                let mut k: usize = 0;
                while k < m
                    invariant
                        k <= m,
                        m == binds@.len(),
                        f.wf(),
                        f.graph_wf(),
                        f.valid_block(ab),
                        ab.0 == fc1.blocks@.len(),
                        !f0.valid_block(ab),
                        ab != block,
                        ab != cur,
                        f.op_of(ab) is None,
                        f.grows_from(f0, block),
                        f.env_ok(env@),
                        f.blocks@.len() == fc2.blocks@.len(),
                        f.values_retained(fc2),
                        f.misc_retained(fc2),
                        forall|bk: Block|
                            fc2.valid_block(bk) && bk != ab ==> #[trigger] f.same_block_shape(
                                fc2,
                                bk,
                            ),
                    decreases m - k,
                {
                    let ghost fk = *f;
                    let av = f.block_arg_insert(ab);
                    env.push((binds[k], av));
                    proof {
                        lemma_grows_step_arg(f0, fk, *f, block, ab);
                        lemma_env_still_ok(fk, *f, env@.drop_last());
                        assert forall|j: int| 0 <= j < env@.len() implies f.valid_value(
                            (#[trigger] env@[j]).1,
                        ) by {
                            if j < env@.len() - 1 {
                                assert(env@.drop_last()[j] == env@[j]);
                            } else {
                                assert(env@[j].1 == av);
                            }
                        }
                        assert forall|bk: Block|
                            fc2.valid_block(bk) && bk != ab implies #[trigger] f.same_block_shape(
                            fc2,
                            bk,
                        ) by {
                            assert(fk.same_block_shape(fc2, bk));
                            assert(f.same_block_shape(fk, bk));
                            assert(f.args_seq(bk) == fk.args_seq(bk));
                            assert(f.reads_seq(bk) == fk.reads_seq(bk));
                            assert(f.succs_seq(bk) == fk.succs_seq(bk));
                            assert(f.preds_seq(bk) == fk.preds_seq(bk));
                            assert(f.op_of(bk) == fk.op_of(bk));
                        }
                        assert forall|v2: Value| fc2.valid_value(v2) implies #[trigger] f.kind_of(
                            v2,
                        ) == fc2.kind_of(v2) by {
                            assert(fk.valid_value(v2));
                            assert(fk.kind_of(v2) == fc2.kind_of(v2));
                            assert(f.kind_of(v2) == fk.kind_of(v2));
                        }
                        assert forall|bk: Block| fc2.valid_block(bk) implies #[trigger] f.block_value_of(
                            bk,
                        ) == fc2.block_value_of(bk) by {
                            assert(fk.valid_block(bk));
                            assert(fk.block_value_of(bk) == fc2.block_value_of(bk));
                            assert(f.block_value_of(bk) == fk.block_value_of(bk));
                        }
                        lemma_misc_chain(fc2, fk, *f);
                    }
                    k = k + 1;
                }
                // the arm body delivers its result to the case's cont
                let ghost fc3 = *f;
                proof {
                    assert(f.valid_value(cont)) by {
                        assert(f0.valid_value(cont));
                    }
                }
                let rr = lower_tail(f, env, module_name, host_name, exc, ab, &clauses[i].body, cont);
                proof {
                    lemma_grows_step(f0, fc3, *f, block, ab);
                }
                match rr {
                    Ok(_) => {},
                    Err(er) => {
                        return Err(er);
                    },
                }
                let abv = f.block_value(ab);
                clause_handles.push(clause);
                arm_vals.push(abv);
                proof {
                    assert forall|j: int|
                        0 <= j < clause_handles@.len() implies f.pattern_container.valid_clause(
                        #[trigger] clause_handles@[j],
                    ) by {
                        if j < clause_handles@.len() - 1 {
                            assert(floop.pattern_container.valid_clause(clause_handles@[j]));
                            assert(floop.pattern_container.clauses@.len()
                                <= f.pattern_container.clauses@.len());
                        } else {
                            assert(clause_handles@[j] == clause);
                            assert(fc1.pattern_container.valid_clause(clause));
                        }
                    }
                    assert forall|j: int| 0 <= j < arm_vals@.len() implies f.valid_value(
                        #[trigger] arm_vals@[j],
                    ) by {
                        if j < arm_vals@.len() - 1 {
                            assert(floop.valid_value(arm_vals@[j]));
                        } else {
                            assert(arm_vals@[j] == abv);
                        }
                    }
                    assert(f.op_of(cur) is None) by {
                        assert(floop.op_of(cur) is None);
                        assert(fc1.same_block_shape(floop, cur));
                        assert(fc2.same_block_shape(fc1, cur));
                        assert(fc3.same_block_shape(fc2, cur));
                        assert(cur != ab);
                        assert(fc3.valid_block(cur));
                        assert(f.args_seq(cur) == fc3.args_seq(cur));
                        assert(f.op_of(cur) == fc3.op_of(cur));
                    }
                    if cur != block {
                        assert(f.op_of(block) is Some) by {
                            assert(floop.op_of(block) is Some);
                            assert(fc1.same_block_shape(floop, block));
                            assert(fc2.same_block_shape(fc1, block));
                            assert(fc3.same_block_shape(fc2, block));
                            assert(block != ab);
                            assert(f.args_seq(block) == fc3.args_seq(block));
                            assert(f.op_of(block) == fc3.op_of(block));
                        }
                    }
                    assert(f.valid_value(sv)) by {
                        assert(floop.valid_value(sv));
                    }
                }
                i = i + 1;
            }
            let ghost fdone = *f;
            let handle = f.clause_list_intern(&clause_handles);
            let ghost fh = *f;
            proof {
                lemma_grows_step_retained(f0, fdone, fh, block);
                lemma_env_still_ok(fdone, fh, env@);
            }
            let mut reads: Vec<Value> = Vec::new();
            reads.push(sv);
            append_values(&mut reads, &arm_vals);
            proof {
                assert forall|j: int| 0 <= j < reads@.len() implies f.valid_value(
                    #[trigger] reads@[j],
                ) by {
                    if j == 0 {
                        assert(reads@[0] == sv);
                        assert(fdone.valid_value(sv));
                    } else {
                        assert(reads@[j] == arm_vals@[j - 1]);
                        assert(fdone.valid_value(arm_vals@[j - 1]));
                    }
                }
                assert(f.op_payload_ok(OpKind::Case { clauses: handle })) by {
                    assert forall|j: int|
                        0 <= j < f.clause_pool.list_view(handle).len()
                            implies f.pattern_container.valid_clause(
                            #[trigger] f.clause_pool.list_view(handle)[j],
                        ) by {
                        assert(f.clause_pool.list_view(handle)[j] == clause_handles@[j]);
                        assert(fdone.pattern_container.valid_clause(clause_handles@[j]));
                        assert(fdone.pattern_container.clauses@.len()
                            <= f.pattern_container.clauses@.len());
                    }
                }
                assert(f.op_of(cur) is None) by {
                    assert(fdone.op_of(cur) is None);
                    assert(f.same_block_shape(fdone, cur));
                }
            }
            f.block_set_op(cur, OpKind::Case { clauses: handle }, &reads);
            proof {
                lemma_grows_step(f0, fh, *f, block, cur);
                lemma_env_still_ok(fh, *f, env@);
                assert(f.op_of(block) is Some) by {
                    if cur != block {
                        assert(fdone.op_of(block) is Some);
                        assert(fh.same_block_shape(fdone, block));
                        assert(f.args_seq(block) == fh.args_seq(block));
                        assert(f.op_of(block) == fh.op_of(block));
                    }
                }
            }
            Ok(())
        },
        HirExpr::Fun { .. } => Err(LowerError::ClosureNotLifted),
        HirExpr::Variable(v) => {
            match env_lookup(env, v.ssa) {
                Some(val) => {
                    proof {
                        let j = choose|j: int| 0 <= j < env@.len() && env@[j] == (v.ssa, val);
                        assert(f.valid_value(env@[j].1));
                        lemma_grows_refl(f0, block);
                    }
                    let mut args: Vec<Value> = Vec::new();
                    args.push(val);
                    proof {
                        assert forall|j: int| 0 <= j < args@.len() implies f.valid_value(
                            #[trigger] args@[j],
                        ) by {
                            assert(args@[0] == val);
                        }
                    }
                    f.op_call_flow(block, cont, &args);
                    proof {
                        lemma_grows_step(f0, f0, *f, block, block);
                        lemma_env_still_ok(f0, *f, env@);
                        assert(f.op_of(block) is Some);
                    }
                    Ok(())
                },
                None => {
                    proof {
                        lemma_grows_refl(*f, block);
                    }
                    Err(LowerError::UnboundValue { ssa: v.ssa })
                },
            }
        },
        HirExpr::Atomic(term) => {
            let val = f.value_const(term.duplicate());
            let ghost f1 = *f;
            proof {
                lemma_env_still_ok(f0, f1, env@);
                lemma_grows_refl(f0, block);
                lemma_grows_step_retained(f0, f0, f1, block);
            }
            let mut args: Vec<Value> = Vec::new();
            args.push(val);
            proof {
                assert(f.valid_value(cont)) by {
                    assert(f0.valid_value(cont));
                }
                assert forall|j: int| 0 <= j < args@.len() implies f.valid_value(
                    #[trigger] args@[j],
                ) by {
                    assert(args@[0] == val);
                }
                assert(f.op_of(block) is None) by {
                    assert(f1.same_block_shape(f0, block));
                }
            }
            f.op_call_flow(block, cont, &args);
            proof {
                lemma_grows_step(f0, f1, *f, block, block);
                lemma_env_still_ok(f1, *f, env@);
                assert(f.op_of(block) is Some);
            }
            Ok(())
        },
        HirExpr::Match { var, value } => {
            let rr = lower_value(f, env, module_name, host_name, exc, block, value);
            match rr {
                Ok((cur, val)) => {
                    env.push((var.ssa, val));
                    proof {
                        assert forall|j: int| 0 <= j < env@.len() implies f.valid_value(
                            (#[trigger] env@[j]).1,
                        ) by {
                            if j < env@.len() - 1 {
                            } else {
                                assert(env@[j].1 == val);
                            }
                        }
                    }
                    let mut args: Vec<Value> = Vec::new();
                    args.push(val);
                    let ghost fmid = *f;
                    proof {
                        assert(f.valid_value(cont)) by {
                            assert(f0.valid_value(cont));
                        }
                        assert forall|j: int| 0 <= j < args@.len() implies f.valid_value(
                            #[trigger] args@[j],
                        ) by {
                            assert(args@[0] == val);
                        }
                    }
                    f.op_call_flow(cur, cont, &args);
                    proof {
                        lemma_grows_step(f0, fmid, *f, block, cur);
                        lemma_env_still_ok(fmid, *f, env@);
                        assert(f.op_of(block) is Some) by {
                            if cur != block {
                                assert(fmid.op_of(block) is Some);
                                assert(f.args_seq(block) == fmid.args_seq(block));
                                assert(f.op_of(block) == fmid.op_of(block));
                            }
                        }
                    }
                    Ok(())
                },
                Err(er) => Err(er),
            }
        },
        HirExpr::Body { exprs } => {
            let n = exprs.len();
            if n == 0 {
                proof {
                    lemma_grows_refl(*f, block);
                }
                return Err(LowerError::EmptyBody);
            }
            let mut cur = block;
            let mut i: usize = 0;
            proof {
                assert(HirExpr::closure_free_list(exprs@.skip(0))) by {
                    assert(exprs@.skip(0) =~= exprs@);
                }
                lemma_grows_refl(f0, block);
            }
            while i < n - 1
                invariant
                    n >= 1,
                    i <= n - 1,
                    n == exprs@.len(),
                    f.wf(),
                    f.graph_wf(),
                    f.valid_block(cur),
                    f.op_of(cur) is None,
                    f.grows_from(f0, block),
                    cur == block || !f0.valid_block(cur),
                    cur == block || f.op_of(block) is Some,
                    f.env_ok(env@),
                    f.valid_value(cont),
                    match *exc {
                        Some(x) => f.valid_value(x),
                        None => true,
                    },
                    HirExpr::closure_free_list(exprs@.skip(i as int)),
                decreases n - 1 - i,
            {
                proof {
                    assert(exprs@.skip(i as int)[0] == exprs@[i as int]);
                    assert(exprs@.skip(i as int).drop_first() =~= exprs@.skip(i + 1));
                }
                let ghost fcur = *f;
                let rr = lower_value(f, env, module_name, host_name, exc, cur, &exprs[i]);
                proof {
                    lemma_grows_step(f0, fcur, *f, block, cur);
                }
                let (b2, _v2) = match rr {
                    Ok(p) => p,
                    Err(er) => {
                        return Err(er);
                    },
                };
                proof {
                    if b2 != block {
                        if cur == block {
                            assert(b2 == cur || f.op_of(cur) is Some);
                        } else {
                            assert(f.op_of(block) == fcur.op_of(block));
                        }
                    }
                }
                cur = b2;
                i = i + 1;
            }
            proof {
                assert(exprs@.skip(i as int)[0] == exprs@[i as int]);
            }
            let ghost flast = *f;
            let rr = lower_tail(f, env, module_name, host_name, exc, cur, &exprs[n - 1], cont);
            proof {
                assert forall|bk: Block|
                    flast.valid_block(bk) && bk != cur implies #[trigger] f.args_seq(bk)
                    == flast.args_seq(bk) && f.reads_seq(bk) == flast.reads_seq(bk) && f.op_of(bk)
                    == flast.op_of(bk) by {
                    assert(f.args_seq(bk) == flast.args_seq(bk));
                }
                lemma_grows_step(f0, flast, *f, block, cur);
            }
            match rr {
                Ok(_) => {
                    proof {
                        assert(f.op_of(block) is Some) by {
                            if cur == block {
                                assert(f.op_of(cur) is Some);
                            } else {
                                assert(flast.op_of(block) is Some);
                                assert(f.op_of(block) == flast.op_of(block));
                            }
                        }
                    }
                    Ok(())
                },
                Err(er) => Err(er),
            }
        },
    }
}

/// Get the function's exception continuation, materializing on first
/// use a block that control never reaches: no op of this set raises.
#[verifier::loop_isolation(false)]
fn ensure_exc_block(f: &mut Function, exc: &mut Option<Value>) -> (x: Value)
    requires
        old(f).wf(),
        old(f).graph_wf(),
        match *old(exc) {
            Some(x0) => old(f).valid_value(x0),
            None => true,
        },
    ensures
        final(f).wf(),
        final(f).graph_wf(),
        final(f).valid_value(x),
        *final(exc) == Some(x),
        final(f).values_retained(*old(f)),
        final(f).misc_retained(*old(f)),
        old(f).blocks@.len() <= final(f).blocks@.len(),
        forall|b: Block|
            old(f).valid_block(b) ==> #[trigger] final(f).args_seq(b) == old(f).args_seq(b),
        forall|b: Block|
            old(f).valid_block(b) ==> #[trigger] final(f).reads_seq(b) == old(f).reads_seq(b),
        forall|b: Block|
            old(f).valid_block(b) ==> #[trigger] final(f).op_of(b) == old(f).op_of(b),
{
    match *exc {
        Some(x0) => {
            proof {
                assert(*f == *old(f));
                assert forall|b: Block| old(f).valid_block(b) implies #[trigger] f.args_seq(b)
                    == old(f).args_seq(b) by {}
                assert forall|b: Block| old(f).valid_block(b) implies #[trigger] f.reads_seq(b)
                    == old(f).reads_seq(b) by {}
                assert forall|b: Block| old(f).valid_block(b) implies #[trigger] f.op_of(b)
                    == old(f).op_of(b) by {}
                assert forall|v: Value| old(f).valid_value(v) implies #[trigger] f.kind_of(v)
                    == old(f).kind_of(v) by {}
                assert forall|bk: Block| old(f).valid_block(bk) implies #[trigger] f.block_value_of(
                    bk,
                ) == old(f).block_value_of(bk) by {}
            }
            x0
        },
        None => {
            let xb = f.block_insert();
            let ghost fa = *f;
            let empty_reads: Vec<Value> = Vec::new();
            f.block_set_op(xb, OpKind::Unreachable, &empty_reads);
            let xv = f.block_value(xb);
            *exc = Some(xv);
            proof {
                assert forall|b: Block| old(f).valid_block(b) implies #[trigger] f.args_seq(b)
                    == old(f).args_seq(b) by {
                    assert(fa.same_block_shape(*old(f), b));
                    assert(b != xb);
                    assert(f.args_seq(b) == fa.args_seq(b));
                }
                assert forall|b: Block| old(f).valid_block(b) implies #[trigger] f.reads_seq(b)
                    == old(f).reads_seq(b) by {
                    assert(fa.same_block_shape(*old(f), b));
                    assert(b != xb);
                    assert(f.args_seq(b) == fa.args_seq(b));
                    assert(f.reads_seq(b) == fa.reads_seq(b));
                }
                assert forall|b: Block| old(f).valid_block(b) implies #[trigger] f.op_of(b)
                    == old(f).op_of(b) by {
                    assert(fa.same_block_shape(*old(f), b));
                    assert(b != xb);
                    assert(f.args_seq(b) == fa.args_seq(b));
                    assert(f.op_of(b) == fa.op_of(b));
                }
                assert forall|v: Value| old(f).valid_value(v) implies #[trigger] f.kind_of(v)
                    == old(f).kind_of(v) by {
                    assert(fa.kind_of(v) == old(f).kind_of(v));
                    assert(fa.valid_value(v));
                }
                assert forall|bk: Block| old(f).valid_block(bk) implies #[trigger] f.block_value_of(
                    bk,
                ) == old(f).block_value_of(bk) by {
                    assert(fa.block_value_of(bk) == old(f).block_value_of(bk));
                    assert(fa.valid_block(bk));
                }
                lemma_misc_chain(*old(f), fa, *f);
            }
            xv
        },
    }
}
/// Chaining of the container clauses of `misc_retained`.
proof fn lemma_misc_chain(a: Function, b: Function, c: Function)
    requires
        b.misc_retained(a),
        c.misc_retained(b),
    ensures
        c.misc_retained(a),
{
    assert forall|f2: crate::fun::FunRef| a.valid_fun_ref(f2) implies #[trigger] c.fun_refs@[f2.0 as int]
        == a.fun_refs@[f2.0 as int] by {
        assert(b.fun_refs@[f2.0 as int] == a.fun_refs@[f2.0 as int]);
        assert(b.valid_fun_ref(f2));
    }
    assert forall|c2: crate::constant::Const|
        a.constant_container.valid_const(c2) implies #[trigger] c.constant_container.term_of(c2)
        == a.constant_container.term_of(c2) by {
        assert(b.constant_container.term_of(c2) == a.constant_container.term_of(c2));
        assert(b.constant_container.valid_const(c2));
    }
    assert forall|c2: crate::pattern::PatternClause|
        a.pattern_container.valid_clause(c2) implies #[trigger] c.pattern_container.clause_pattern(
        c2,
    ) == a.pattern_container.clause_pattern(c2) && c.pattern_container.clause_binds(c2)
        == a.pattern_container.clause_binds(c2) by {
        assert(b.pattern_container.clause_pattern(c2) == a.pattern_container.clause_pattern(c2));
        assert(b.pattern_container.clause_binds(c2) == a.pattern_container.clause_binds(c2));
        assert(b.pattern_container.valid_clause(c2));
    }
}

/// Lower a list of operand expressions left to right, collecting their
/// values.
#[verifier::loop_isolation(false)]
pub fn lower_operands(
    f: &mut Function,
    env: &mut Vec<(u64, Value)>,
    module_name: &String,
    host_name: &String,
    exc: &mut Option<Value>,
    block: Block,
    es: &Vec<HirExpr>,
) -> (r: Result<(Block, Vec<Value>), LowerError>)
    requires
        old(f).wf(),
        old(f).graph_wf(),
        old(f).valid_block(block),
        old(f).op_of(block) is None,
        old(f).env_ok(old(env)@),
        match *old(exc) {
            Some(x) => old(f).valid_value(x),
            None => true,
        },
        HirExpr::closure_free_list(es@),
    ensures
        final(f).wf(),
        final(f).graph_wf(),
        final(f).grows_from(*old(f), block),
        final(f).env_ok(final(env)@),
        match *final(exc) {
            Some(x) => final(f).valid_value(x),
            None => true,
        },
        match r {
            Ok((bout, vals)) => final(f).valid_block(bout) && final(f).op_of(bout) is None && (bout
                == block || !old(f).valid_block(bout)) && (bout == block || final(f).op_of(block)
                is Some) && vals@.len() == es@.len() && (forall|j: int|
                0 <= j < vals@.len() ==> final(f).valid_value(#[trigger] vals@[j])),
            Err(_) => true,
        },
    decreases es@, 2int,
{
    let ghost f0 = *f;
    let mut cur = block;
    let mut vals: Vec<Value> = Vec::new();
    let n = es.len();
    let mut i: usize = 0;
    proof {
        assert(HirExpr::closure_free_list(es@.skip(0))) by {
            assert(es@.skip(0) =~= es@);
        }
    }
    while i < n
        invariant
            i <= n,
            n == es@.len(),
            f.wf(),
            f.graph_wf(),
            f.valid_block(cur),
            f.op_of(cur) is None,
            f.grows_from(f0, block),
            cur == block || !f0.valid_block(cur),
            cur == block || f.op_of(block) is Some,
            f.env_ok(env@),
            match *exc {
                Some(x) => f.valid_value(x),
                None => true,
            },
            vals@.len() == i,
            forall|j: int| 0 <= j < vals@.len() ==> f.valid_value(#[trigger] vals@[j]),
            HirExpr::closure_free_list(es@.skip(i as int)),
        decreases n - i,
    {
        proof {
            assert(es@.skip(i as int)[0] == es@[i as int]);
            assert(es@.skip(i as int).drop_first() =~= es@.skip(i + 1));
        }
        let ghost fcur = *f;
        let (b2, v2) = match lower_value(f, env, module_name, host_name, exc, cur, &es[i]) {
            Ok(p) => p,
            Err(er) => {
                return Err(er);
            },
        };
        proof {
            lemma_grows_step(f0, fcur, *f, block, cur);
            assert forall|j: int| 0 <= j < vals@.len() implies f.valid_value(
                #[trigger] vals@[j],
            ) by {
                assert(fcur.valid_value(vals@[j]));
            }
            if b2 != block {
                if cur == block {
                    assert(b2 == cur || f.op_of(cur) is Some);
                } else {
                    assert(f.args_seq(block) == fcur.args_seq(block));
                    assert(f.op_of(block) == fcur.op_of(block));
                }
            }
        }
        cur = b2;
        vals.push(v2);
        i = i + 1;
    }
    Ok((cur, vals))
}

} // verus!
