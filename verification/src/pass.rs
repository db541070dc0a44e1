//! Block-graph passes: branch simplification and tail-call promotion.
//!
//! Each pass takes exclusive access to a function, rewrites ops in place
//! through the builder interface, and returns with the graph invariants
//! intact.

use vstd::prelude::*;
use crate::constant::AtomicTerm;
use crate::fun::{Block, Function, Value, ValueType};
use crate::op::OpKind;

verus! {

impl Function {
    /// The value is the atom `true` (or `false`).
    pub open spec fn is_bool_const(self, v: Value, which: bool) -> bool {
        match self.kind_of(v) {
            ValueType::Constant(c) => match self.constant_container.term_of(c) {
                AtomicTerm::Atom(a) => a@ == (if which {
                    "true"@
                } else {
                    "false"@
                }),
                _ => false,
            },
            _ => false,
        }
    }

    /// What branch simplification does to one block: a conditional on a
    /// constant becomes a jump to the selected arm; a conditional whose
    /// arms agree becomes a jump; everything else is left alone.
    pub open spec fn branch_simplified(pre: Function, post: Function, b: Block) -> bool {
        let rs = pre.reads_seq(b);
        if pre.op_of(b) == Some(OpKind::IfBool) && rs.len() == 3 {
            if pre.is_bool_const(rs[0], true) {
                post.op_of(b) == Some(OpKind::CallFlow) && post.reads_seq(b) == seq![rs[1]]
            } else if pre.is_bool_const(rs[0], false) {
                post.op_of(b) == Some(OpKind::CallFlow) && post.reads_seq(b) == seq![rs[2]]
            } else if rs[1] == rs[2] {
                post.op_of(b) == Some(OpKind::CallFlow) && post.reads_seq(b) == seq![rs[1]]
            } else {
                post.op_of(b) == pre.op_of(b) && post.reads_seq(b) == rs
            }
        } else {
            post.op_of(b) == pre.op_of(b) && post.reads_seq(b) == rs
        }
    }

    /// What tail-call promotion does to one block: a returning call whose
    /// return continuation is a degenerate return block becomes a tail
    /// call of the same callee with the same arguments; everything else
    /// is left alone.
    pub open spec fn tail_promoted(pre: Function, post: Function, b: Block) -> bool {
        let rs = pre.reads_seq(b);
        if pre.op_of(b) == Some(OpKind::Call) && rs.len() >= 3 && pre.is_degenerate_ret(rs[0]) {
            post.op_of(b) == Some(OpKind::CallFlow) && post.reads_seq(b) == rs.subrange(
                2,
                rs.len() as int,
            )
        } else {
            post.op_of(b) == pre.op_of(b) && post.reads_seq(b) == rs
        }
    }

    /// The value names a block that does nothing but pass its single
    /// argument on to the function's return continuation.
    pub open spec fn is_degenerate_ret(self, rv: Value) -> bool {
        match self.kind_of(rv) {
            ValueType::Block(rb) => {
                &&& self.entry_block is Some
                &&& self.args_seq(self.entry_block.unwrap()).len() >= 1
                &&& self.args_seq(rb).len() == 1
                &&& self.op_of(rb) == Some(OpKind::CallFlow)
                &&& self.reads_seq(rb).len() == 2
                &&& self.reads_seq(rb)[0] == self.args_seq(self.entry_block.unwrap())[0]
                &&& self.reads_seq(rb)[1] == self.args_seq(rb)[0]
            },
            _ => false,
        }
    }
}

/// What branch simplification guarantees as a whole: sizes, values and
/// argument lists are kept, and every block is rewritten per
/// `branch_simplified`.
pub open spec fn branches_simplified(pre: Function, post: Function) -> bool {
    &&& post.blocks@.len() == pre.blocks@.len()
    &&& post.values@.len() == pre.values@.len()
    &&& post.values_retained(pre)
    &&& post.misc_retained(pre)
    &&& forall|b: Block| pre.valid_block(b) ==> #[trigger] post.args_seq(b) == pre.args_seq(b)
    &&& forall|b: Block| pre.valid_block(b) ==> #[trigger] Function::branch_simplified(pre, post, b)
}

/// What tail-call promotion guarantees as a whole: sizes, values and
/// argument lists are kept, and every block is rewritten per
/// `tail_promoted`.
pub open spec fn tails_promoted(pre: Function, post: Function) -> bool {
    &&& post.blocks@.len() == pre.blocks@.len()
    &&& post.values@.len() == pre.values@.len()
    &&& post.values_retained(pre)
    &&& post.misc_retained(pre)
    &&& forall|b: Block| pre.valid_block(b) ==> #[trigger] post.args_seq(b) == pre.args_seq(b)
    &&& forall|b: Block| pre.valid_block(b) ==> #[trigger] Function::tail_promoted(pre, post, b)
}

/// Chaining of `values_retained` across two steps.
proof fn lemma_values_retained_trans(a: Function, b: Function, c: Function)
    requires
        b.values_retained(a),
        c.values_retained(b),
        a.blocks@.len() <= b.blocks@.len(),
    ensures
        c.values_retained(a),
{
    assert forall|v: Value| a.valid_value(v) implies #[trigger] c.kind_of(v) == a.kind_of(v) by {
        assert(b.kind_of(v) == a.kind_of(v));
        assert(b.valid_value(v));
    }
    assert forall|bk: Block| a.valid_block(bk) implies #[trigger] c.block_value_of(bk)
        == a.block_value_of(bk) by {
        assert(b.block_value_of(bk) == a.block_value_of(bk));
        assert(b.valid_block(bk));
    }
}

/// Chaining of `misc_retained` across two steps.
proof fn lemma_misc_retained_trans(a: Function, b: Function, c: Function)
    requires
        b.misc_retained(a),
        c.misc_retained(b),
    ensures
        c.misc_retained(a),
{
    assert forall|f2: crate::fun::FunRef| a.valid_fun_ref(f2) implies #[trigger] c.fun_refs@[f2.0 as int]
        == a.fun_refs@[f2.0 as int] by {
        assert(b.fun_refs@[f2.0 as int] == a.fun_refs@[f2.0 as int]);
        assert(b.valid_fun_ref(f2));
    }
    assert forall|c2: crate::constant::Const|
        a.constant_container.valid_const(c2) implies #[trigger] c.constant_container.term_of(c2)
        == a.constant_container.term_of(c2) by {
        assert(b.constant_container.term_of(c2) == a.constant_container.term_of(c2));
        assert(b.constant_container.valid_const(c2));
    }
    assert forall|c2: crate::pattern::PatternClause|
        a.pattern_container.valid_clause(c2) implies #[trigger] c.pattern_container.clause_pattern(
        c2,
    ) == a.pattern_container.clause_pattern(c2) && c.pattern_container.clause_binds(c2)
        == a.pattern_container.clause_binds(c2) by {
        assert(b.pattern_container.clause_pattern(c2) == a.pattern_container.clause_pattern(c2));
        assert(b.pattern_container.clause_binds(c2) == a.pattern_container.clause_binds(c2));
        assert(b.pattern_container.valid_clause(c2));
    }
}

/// Decide whether a value is the atom `true` or `false`.
fn check_bool_const(f: &Function, v: Value, which: bool) -> (r: bool)
    requires
        f.wf(),
        f.valid_value(v),
    ensures
        r == f.is_bool_const(v, which),
{
    match f.value_literal(v) {
        Some(term) => match term {
            AtomicTerm::Atom(a) => {
                if which {
                    a.eq(&"true".to_owned())
                } else {
                    a.eq(&"false".to_owned())
                }
            },
            _ => false,
        },
        None => false,
    }
}

/// Replace every conditional whose condition is a constant by a jump to
/// the selected arm, and every conditional whose arms agree by a jump.
#[verifier::loop_isolation(false)]
pub fn simplify_branches(f: &mut Function)
    requires
        old(f).wf(),
        old(f).graph_wf(),
    ensures
        final(f).wf(),
        final(f).graph_wf(),
        branches_simplified(*old(f), *final(f)),
        final(f).values_retained(*old(f)),
        final(f).misc_retained(*old(f)),
        final(f).blocks@.len() == old(f).blocks@.len(),
        forall|b: Block|
            old(f).valid_block(b) ==> #[trigger] final(f).args_seq(b) == old(f).args_seq(b),
        forall|b: Block|
            old(f).valid_block(b) ==> #[trigger] Function::branch_simplified(*old(f), *final(f), b),
{
    let ghost pre = *old(f);
    let n = f.blocks.len();
    let mut i: usize = 0;
    while i < n
        invariant
            i <= n,
            n == pre.blocks@.len(),
            f.wf(),
            f.graph_wf(),
            f.values_retained(pre),
            f.misc_retained(pre),
            f.blocks@.len() == pre.blocks@.len(),
            f.values@ == pre.values@,
            forall|b: Block| pre.valid_block(b) ==> #[trigger] f.args_seq(b) == pre.args_seq(b),
            forall|b: Block| b.0 < i ==> #[trigger] Function::branch_simplified(pre, *f, b),
            forall|b: Block|
                i <= b.0 < n ==> #[trigger] f.reads_seq(b) == pre.reads_seq(b) && f.op_of(b)
                    == pre.op_of(b),
        decreases n - i,
    {
        let b = Block(i);
        let ghost cur = *f;
        proof {
            assert(f.reads_seq(b) == pre.reads_seq(b));
            assert(f.op_of(b) == pre.op_of(b));
            assert(f.block_wf(b));
            assert(pre.block_wf(b));
        }
        let mut rewrite_to: Option<Value> = None;
        match f.block_kind(b) {
            Some(OpKind::IfBool) => {
                let reads = f.block_reads(b);
                if reads.len() == 3 {
                    let cond = reads[0];
                    let t = reads[1];
                    let e = reads[2];
                    proof {
                        assert(f.valid_value(f.reads_seq(b)[0]));
                        assert(cond == pre.reads_seq(b)[0]);
                        assert(pre.valid_value(pre.reads_seq(b)[0]));
                        assert(f.kind_of(cond) == pre.kind_of(cond));
                        assert(match pre.kind_of(cond) {
                            ValueType::Constant(c) => pre.constant_container.valid_const(c)
                                && f.constant_container.term_of(c)
                                == pre.constant_container.term_of(c),
                            _ => true,
                        }) by {
                            assert(pre.value_wf(cond));
                        }
                    }
                    if check_bool_const(f, cond, true) {
                        rewrite_to = Some(t);
                    } else if check_bool_const(f, cond, false) {
                        rewrite_to = Some(e);
                    } else if t == e {
                        rewrite_to = Some(t);
                    }
                    proof {
                        assert(f.is_bool_const(cond, true) == pre.is_bool_const(cond, true));
                        assert(f.is_bool_const(cond, false) == pre.is_bool_const(cond, false));
                    }
                }
            },
            _ => {},
        }
        match rewrite_to {
            Some(target) => {
                let ghost mid = *f;
                let mut new_reads: Vec<Value> = Vec::new();
                new_reads.push(target);
                proof {
                    assert(f.valid_value(target)) by {
                        assert(f.block_wf(b));
                    }
                    assert(new_reads@ =~= seq![target]);
                }
                f.block_set_op(b, OpKind::CallFlow, &new_reads);
                proof {
                    lemma_values_retained_trans(pre, mid, *f);
                    lemma_misc_retained_trans(pre, mid, *f);
                    assert forall|b2: Block| pre.valid_block(b2) implies #[trigger] f.args_seq(b2)
                        == pre.args_seq(b2) by {
                        assert(mid.args_seq(b2) == pre.args_seq(b2));
                        if b2 != b {
                            assert(f.args_seq(b2) == mid.args_seq(b2));
                        } else {
                            assert(f.args_seq(b) == mid.args_seq(b));
                        }
                    }
                    assert(Function::branch_simplified(pre, *f, b));
                    assert forall|b2: Block| b2.0 < i implies #[trigger] Function::branch_simplified(
                        pre,
                        *f,
                        b2,
                    ) by {
                        assert(b2 != b);
                        assert(pre.valid_block(b2));
                        assert(f.args_seq(b2) == mid.args_seq(b2));
                        assert(f.op_of(b2) == mid.op_of(b2));
                        assert(f.reads_seq(b2) == mid.reads_seq(b2));
                        assert(Function::branch_simplified(pre, mid, b2));
                    }
                    assert forall|b2: Block|
                        i < b2.0 < n implies #[trigger] f.reads_seq(b2) == pre.reads_seq(b2)
                        && f.op_of(b2) == pre.op_of(b2) by {
                        assert(b2 != b);
                        assert(pre.valid_block(b2));
                        assert(f.args_seq(b2) == mid.args_seq(b2));
                        assert(f.reads_seq(b2) == mid.reads_seq(b2));
                        assert(mid.reads_seq(b2) == pre.reads_seq(b2));
                        assert(f.op_of(b2) == mid.op_of(b2));
                    }
                }
            },
            None => {
                proof {
                    assert(Function::branch_simplified(pre, *f, b));
                }
            },
        }
        proof {
            assert forall|b2: Block|
                i < b2.0 < n implies #[trigger] f.reads_seq(b2) == pre.reads_seq(b2) && f.op_of(b2)
                == pre.op_of(b2) by {
                assert(pre.valid_block(b2));
            }
            assert forall|b2: Block| b2.0 <= i implies #[trigger] Function::branch_simplified(
                pre,
                *f,
                b2,
            ) by {
                if b2.0 < i {
                } else {
                    assert(b2 == b);
                }
            }
        }
        i = i + 1;
    }
    proof {
        assert forall|b: Block| pre.valid_block(b) implies #[trigger] Function::branch_simplified(
            pre,
            *f,
            b,
        ) by {
            assert(b.0 < i);
        }
    }
}

/// Decide whether a value names a degenerate return block.
fn check_degenerate_ret(f: &Function, rv: Value) -> (r: bool)
    requires
        f.wf(),
        f.valid_value(rv),
    ensures
        r == f.is_degenerate_ret(rv),
{
    match f.value_kind(rv) {
        ValueType::Block(rb) => {
            let rb = *rb;
            proof {
                assert(f.value_wf(rv));
                assert(f.block_wf(rb));
            }
            if f.entry_block.is_none() {
                return false;
            }
            let entry = f.block_entry();
            proof {
                assert(f.block_wf(entry));
            }
            let entry_args = f.block_args(entry);
            if entry_args.len() < 1 {
                return false;
            }
            let rb_args = f.block_args(rb);
            if rb_args.len() != 1 {
                return false;
            }
            match f.block_kind(rb) {
                Some(OpKind::CallFlow) => {},
                _ => {
                    return false;
                },
            }
            let rb_reads = f.block_reads(rb);
            if rb_reads.len() != 2 {
                return false;
            }
            rb_reads[0] == entry_args[0] && rb_reads[1] == rb_args[0]
        },
        _ => false,
    }
}

/// Rewrite every returning call whose return continuation does nothing
/// but forward its argument to the function's return continuation into a
/// tail call of the same callee with the same arguments. The degenerate
/// return block keeps no incoming edge from the call site.
#[verifier::rlimit(30)]
#[verifier::loop_isolation(false)]
pub fn promote_tail_calls(f: &mut Function)
    requires
        old(f).wf(),
        old(f).graph_wf(),
    ensures
        final(f).wf(),
        final(f).graph_wf(),
        tails_promoted(*old(f), *final(f)),
        final(f).values_retained(*old(f)),
        final(f).misc_retained(*old(f)),
        final(f).blocks@.len() == old(f).blocks@.len(),
        forall|b: Block|
            old(f).valid_block(b) ==> #[trigger] final(f).args_seq(b) == old(f).args_seq(b),
        forall|b: Block|
            old(f).valid_block(b) ==> #[trigger] Function::tail_promoted(*old(f), *final(f), b),
{
    let ghost pre = *old(f);
    // collect the call sites to promote, judged on the unmodified function
    let n = f.blocks.len();
    let mut promote: Vec<bool> = Vec::new();
    let mut i: usize = 0;
    while i < n
        invariant
            i <= n,
            n == f.blocks@.len(),
            *f == pre,
            promote@.len() == i,
            forall|b: Block|
                b.0 < i ==> (#[trigger] promote@[b.0 as int] <==> (pre.op_of(b) == Some(
                    OpKind::Call,
                ) && pre.reads_seq(b).len() >= 3 && pre.is_degenerate_ret(pre.reads_seq(b)[0]))),
        decreases n - i,
    {
        let b = Block(i);
        proof {
            assert(f.block_wf(b));
        }
        let mut flag = false;
        match f.block_kind(b) {
            Some(OpKind::Call) => {
                let reads = f.block_reads(b);
                if reads.len() >= 3 {
                    proof {
                        assert(f.valid_value(f.reads_seq(b)[0]));
                    }
                    if check_degenerate_ret(f, reads[0]) {
                        flag = true;
                    }
                }
            },
            _ => {},
        }
        promote.push(flag);
        proof {
            assert forall|b2: Block|
                b2.0 < i + 1 implies (#[trigger] promote@[b2.0 as int] <==> (pre.op_of(b2) == Some(
                    OpKind::Call,
                ) && pre.reads_seq(b2).len() >= 3 && pre.is_degenerate_ret(
                    pre.reads_seq(b2)[0],
                ))) by {
                if b2.0 < i {
                    assert(promote@[b2.0 as int] == promote@.drop_last()[b2.0 as int]);
                } else {
                    assert(b2 == b);
                    assert(promote@[b2.0 as int] == flag);
                }
            }
        }
        i = i + 1;
    }
    // apply the rewrites
    let mut k: usize = 0;
    while k < n
        invariant
            k <= n,
            n == pre.blocks@.len(),
            f.wf(),
            f.graph_wf(),
            f.values_retained(pre),
            f.misc_retained(pre),
            f.blocks@.len() == pre.blocks@.len(),
            f.values@ == pre.values@,
            promote@.len() == n,
            forall|b: Block|
                b.0 < n ==> (#[trigger] promote@[b.0 as int] <==> (pre.op_of(b) == Some(
                    OpKind::Call,
                ) && pre.reads_seq(b).len() >= 3 && pre.is_degenerate_ret(pre.reads_seq(b)[0]))),
            forall|b: Block| pre.valid_block(b) ==> #[trigger] f.args_seq(b) == pre.args_seq(b),
            forall|b: Block| b.0 < k ==> #[trigger] Function::tail_promoted(pre, *f, b),
            forall|b: Block|
                k <= b.0 < n ==> #[trigger] f.reads_seq(b) == pre.reads_seq(b) && f.op_of(b)
                    == pre.op_of(b),
        decreases n - k,
    {
        let b = Block(k);
        let flag = promote[k];
        let ghost start = *f;
        proof {
            assert(f.reads_seq(b) == pre.reads_seq(b));
            assert(f.op_of(b) == pre.op_of(b));
        }
        if flag {
            let ghost mid = *f;
            proof {
                assert(f.block_wf(b));
            }
            let reads = f.block_reads(b);
            let mut new_reads: Vec<Value> = Vec::new();
            let m = reads.len();
            let mut q: usize = 2;
            while q < m
                invariant
                    2 <= q <= m,
                    m == f.reads_seq(b).len(),
                    reads@ == f.reads_seq(b),
                    new_reads@ == f.reads_seq(b).subrange(2, q as int),
                decreases m - q,
            {
                new_reads.push(reads[q]);
                proof {
                    assert(f.reads_seq(b).subrange(2, q + 1) =~= f.reads_seq(b).subrange(
                        2,
                        q as int,
                    ).push(f.reads_seq(b)[q as int]));
                }
                q = q + 1;
            }
            proof {
                assert(new_reads@ == f.reads_seq(b).subrange(2, m as int));
                assert forall|j2: int| 0 <= j2 < new_reads@.len() implies f.valid_value(
                    #[trigger] new_reads@[j2],
                ) by {
                    assert(f.block_wf(b));
                    assert(new_reads@[j2] == f.reads_seq(b)[j2 + 2]);
                    assert(f.valid_value(f.reads_seq(b)[j2 + 2]));
                }
            }
            f.block_set_op(b, OpKind::CallFlow, &new_reads);
            proof {
                lemma_values_retained_trans(pre, mid, *f);
                lemma_misc_retained_trans(pre, mid, *f);
                assert forall|b2: Block| pre.valid_block(b2) implies #[trigger] f.args_seq(b2)
                    == pre.args_seq(b2) by {
                    assert(mid.args_seq(b2) == pre.args_seq(b2));
                    if b2 != b {
                        assert(f.args_seq(b2) == mid.args_seq(b2));
                    } else {
                        assert(f.args_seq(b) == mid.args_seq(b));
                    }
                }
                assert(Function::tail_promoted(pre, *f, b)) by {
                    assert(f.reads_seq(b) == mid.reads_seq(b).subrange(
                        2,
                        mid.reads_seq(b).len() as int,
                    ));
                    assert(mid.reads_seq(b) == pre.reads_seq(b));
                }
                assert forall|b2: Block| b2.0 < k implies #[trigger] Function::tail_promoted(
                    pre,
                    *f,
                    b2,
                ) by {
                    assert(b2 != b);
                    assert(pre.valid_block(b2));
                    assert(f.args_seq(b2) == mid.args_seq(b2));
                    assert(f.op_of(b2) == mid.op_of(b2));
                    assert(f.reads_seq(b2) == mid.reads_seq(b2));
                    assert(Function::tail_promoted(pre, mid, b2));
                }
                assert forall|b2: Block|
                    k < b2.0 < n implies #[trigger] f.reads_seq(b2) == pre.reads_seq(b2)
                    && f.op_of(b2) == pre.op_of(b2) by {
                    assert(b2 != b);
                    assert(pre.valid_block(b2));
                    assert(f.args_seq(b2) == mid.args_seq(b2));
                    assert(f.reads_seq(b2) == mid.reads_seq(b2));
                    assert(mid.reads_seq(b2) == pre.reads_seq(b2));
                    assert(f.op_of(b2) == mid.op_of(b2));
                }
            }
        } else {
            proof {
                assert(Function::tail_promoted(pre, *f, b));
            }
        }
        proof {
            assert forall|b2: Block|
                k < b2.0 < n implies #[trigger] f.reads_seq(b2) == pre.reads_seq(b2) && f.op_of(b2)
                == pre.op_of(b2) by {
                assert(pre.valid_block(b2));
                if flag {
                    assert(b2 != b);
                    assert(f.args_seq(b2) == start.args_seq(b2));
                    assert(f.reads_seq(b2) == start.reads_seq(b2));
                    assert(f.op_of(b2) == start.op_of(b2));
                    assert(start.reads_seq(b2) == pre.reads_seq(b2));
                    assert(start.op_of(b2) == pre.op_of(b2));
                } else {
                    assert(*f == start);
                }
            }
            assert forall|b2: Block| b2.0 <= k implies #[trigger] Function::tail_promoted(
                pre,
                *f,
                b2,
            ) by {
                if b2.0 < k {
                    assert(pre.valid_block(b2));
                    if flag {
                        assert(b2 != b);
                        assert(f.args_seq(b2) == start.args_seq(b2));
                        assert(f.op_of(b2) == start.op_of(b2));
                        assert(f.reads_seq(b2) == start.reads_seq(b2));
                        assert(Function::tail_promoted(pre, start, b2));
                    } else {
                        assert(*f == start);
                    }
                } else {
                    assert(b2 == b);
                }
            }
            assert forall|b2: Block|
                k + 1 <= b2.0 < n implies #[trigger] f.reads_seq(b2) == pre.reads_seq(b2)
                && f.op_of(b2) == pre.op_of(b2) by {
                assert(k < b2.0 < n);
            }
            assert forall|b2: Block| b2.0 < k + 1 implies #[trigger] Function::tail_promoted(
                pre,
                *f,
                b2,
            ) by {
                assert(b2.0 <= k);
            }
            assert(f.wf());
            assert(f.graph_wf());
            assert(f.values_retained(pre));
            assert(f.misc_retained(pre));
            assert(f.blocks@.len() == pre.blocks@.len());
            assert(f.values@ == pre.values@);
            assert(forall|b2: Block|
                pre.valid_block(b2) ==> #[trigger] f.args_seq(b2) == pre.args_seq(b2));
        }
        k = k + 1;
    }
    proof {
        assert forall|b: Block| pre.valid_block(b) implies #[trigger] Function::tail_promoted(
            pre,
            *f,
            b,
        ) by {
            assert(b.0 < k);
        }
    }
}

} // verus!
