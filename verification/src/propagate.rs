//! Atomic propagation.
//!
//! A block argument that is passed the same constant from every
//! predecessor is eliminated: its uses are rewritten to read the constant
//! directly, the predecessors stop passing it, the parameter is removed,
//! and the argument value is marked as an alias of the constant. A block
//! with no predecessors is left unchanged, and so is the entry block.

use vstd::prelude::*;
use crate::fun::{Block, Function, Value, ValueType};
use crate::op::OpKind;

verus! {

impl Function {
    /// Position `k` of block `p`'s reads holds the value of block `t`.
    pub open spec fn site_is(self, t: Block, p: Block, k: int) -> bool {
        &&& self.valid_block(p)
        &&& 0 <= k < self.reads_seq(p).len()
        &&& self.reads_seq(p)[k] == self.block_value_of(t)
    }

    /// The use at `(p, k)` invokes `t` directly: it is the target of a
    /// control-flow op whose argument count matches `t`'s parameters,
    /// and the value passed for parameter `i` is a constant.
    pub open spec fn site_conforms(self, t: Block, i: int, p: Block, k: int) -> bool {
        &&& self.op_of(p) == Some(OpKind::CallFlow)
        &&& k == 0
        &&& self.reads_seq(p).len() == 1 + self.args_seq(t).len()
        &&& self.kind_of(self.reads_seq(p)[1 + i]) is Constant
    }

    /// Every use of `t`'s value invokes it directly and passes `cv` for
    /// parameter `i`.
    pub open spec fn sites_pass(self, t: Block, i: int, cv: Value) -> bool {
        forall|p: Block, k: int|
            #![trigger self.reads_seq(p)[k]]
            self.site_is(t, p, k) ==> self.site_conforms(t, i, p, k) && self.reads_seq(p)[1 + i]
                == cv
    }

    /// The block's value is used somewhere.
    pub open spec fn has_use(self, t: Block) -> bool {
        exists|p: Block, k: int|
            self.valid_block(p) && 0 <= k < self.reads_seq(p).len()
                && #[trigger] self.reads_seq(p)[k] == self.block_value_of(t)
    }

    /// Parameter `i` of block `t` is up for atomic propagation: the block
    /// is not the entry, its value is used, every use invokes it
    /// directly, and every call site passes one same constant for `i`.
    pub open spec fn arg_eliminable(self, t: Block, i: int) -> bool {
        &&& self.valid_block(t)
        &&& self.entry_block != Some(t)
        &&& 0 <= i < self.args_seq(t).len()
        &&& self.has_use(t)
        &&& exists|cv: Value|
            self.valid_value(cv) && (#[trigger] self.kind_of(cv)) is Constant && self.sites_pass(
                t,
                i,
                cv,
            )
    }
}

/// Some element of the read list is the value of block `s`.
pub open spec fn reads_block_kind(f: Function, rs: Seq<Value>, s: Block) -> bool {
    exists|q: int| 0 <= q < rs.len() && f.kind_of(#[trigger] rs[q]) == ValueType::Block(s)
}

/// Appending one element extends block-kind membership by that element.
proof fn lemma_rbk_push(f: Function, rs: Seq<Value>, x: Value, s: Block)
    ensures
        reads_block_kind(f, rs.push(x), s) <==> (reads_block_kind(f, rs, s) || f.kind_of(x)
            == ValueType::Block(s)),
{
    if reads_block_kind(f, rs.push(x), s) {
        let q = choose|q: int|
            0 <= q < rs.push(x).len() && f.kind_of(#[trigger] rs.push(x)[q]) == ValueType::Block(
                s,
            );
        if q < rs.len() {
            assert(rs[q] == rs.push(x)[q]);
            assert(reads_block_kind(f, rs, s));
        } else {
            assert(rs.push(x)[q] == x);
        }
    }
    if reads_block_kind(f, rs, s) {
        let q = choose|q: int|
            0 <= q < rs.len() && f.kind_of(#[trigger] rs[q]) == ValueType::Block(s);
        assert(rs.push(x)[q] == rs[q]);
        assert(reads_block_kind(f, rs.push(x), s));
    }
    if f.kind_of(x) == ValueType::Block(s) {
        assert(rs.push(x)[rs.len() as int] == x);
        assert(reads_block_kind(f, rs.push(x), s));
    }
}

/// Eliminate parameter `i` of block `t`, whose every caller passes the
/// constant value `cv`: rewrite all reads of the argument to `cv`, drop
/// the passed position at every call site of `t`, remove the parameter,
/// and mark the argument value as an alias of `cv`.
#[verifier::loop_isolation(false)]
fn eliminate_arg(f: &mut Function, t: Block, i: usize, tv: Value, cv: Value)
    requires
        old(f).wf(),
        old(f).graph_wf(),
        old(f).valid_block(t),
        i < old(f).args_seq(t).len(),
        tv == old(f).block_value_of(t),
        old(f).valid_value(cv),
        old(f).kind_of(cv) is Constant,
        old(f).entry_block != Some(t),
        old(f).sites_pass(t, i as int, cv),
    ensures
        final(f).wf(),
        final(f).graph_wf(),
        final(f).blocks@.len() == old(f).blocks@.len(),
        final(f).values@.len() == old(f).values@.len(),
        final(f).misc_retained(*old(f)),
        final(f).entry_block == old(f).entry_block,
        // the graph's edges are untouched: the dropped and substituted
        // operands are never block values
        forall|b: Block|
            old(f).valid_block(b) ==> #[trigger] final(f).preds_seq(b) == old(f).preds_seq(b),
        forall|b: Block, s: Block|
            #![trigger final(f).succs_seq(b).contains(s)]
            old(f).valid_block(b) ==> (final(f).succs_seq(b).contains(s) <==> old(f).succs_seq(
                b,
            ).contains(s)),
        forall|b: Block| old(f).valid_block(b) ==> #[trigger] final(f).op_of(b) == old(f).op_of(b),
        // the argument value is now an alias of the constant; all other
        // kinds are kept
        final(f).kind_of(old(f).args_seq(t)[i as int]) == ValueType::Alias(cv),
        forall|v: Value|
            old(f).valid_value(v) && v != old(f).args_seq(t)[i as int]
                ==> #[trigger] final(f).kind_of(v) == old(f).kind_of(v),
        // the parameter is gone; other parameter lists are kept
        final(f).args_seq(t) == old(f).args_seq(t).remove(i as int),
        forall|b: Block|
            old(f).valid_block(b) && b != t ==> #[trigger] final(f).args_seq(b) == old(f).args_seq(
                b,
            ),
        // nothing reads or binds the eliminated argument any more, and
        // rewritten reads only hold old operands or the constant
        forall|b: Block, v: Value|
            #![trigger final(f).reads_seq(b).contains(v)]
            old(f).valid_block(b) && final(f).reads_seq(b).contains(v) ==> (old(f).reads_seq(
                b,
            ).contains(v) || v == cv) && v != old(f).args_seq(t)[i as int],
        forall|b: Block|
            old(f).valid_block(b) ==> !(#[trigger] final(f).args_seq(b).contains(
                old(f).args_seq(t)[i as int],
            )),
{
    let ghost pre = *old(f);
    proof {
        assert(pre.block_wf(t));
    }
    let t_args = f.block_args(t);
    let a = t_args[i];
    let ghost ga = pre.args_seq(t)[i as int];
    proof {
        assert(a == ga);
        assert(pre.valid_value(a));
        assert(pre.kind_of(a) == ValueType::Arg(t));
        assert(a != cv);
    }
    let n = f.blocks.len();
    let mut p_idx: usize = 0;
    while p_idx < n
        invariant
            p_idx <= n,
            n == pre.blocks@.len(),
            f.wf(),
            f.graph_wf(),
            f.blocks@.len() == pre.blocks@.len(),
            f.values@ == pre.values@,
            f.block_values@ == pre.block_values@,
            f.constant_values@ == pre.constant_values@,
            f.entry_block == pre.entry_block,
            f.misc_retained(pre),
            t_args@ == pre.args_seq(t),
            forall|b: Block| pre.valid_block(b) ==> #[trigger] f.op_of(b) == pre.op_of(b),
            forall|b: Block| pre.valid_block(b) ==> #[trigger] f.args_seq(b) == pre.args_seq(b),
            forall|b: Block| pre.valid_block(b) ==> #[trigger] f.preds_seq(b) == pre.preds_seq(b),
            forall|b: Block, s: Block|
                #![trigger f.succs_seq(b).contains(s)]
                pre.valid_block(b) ==> (f.succs_seq(b).contains(s) <==> pre.succs_seq(b).contains(
                    s,
                )),
            forall|b: Block|
                p_idx <= b.0 < n ==> #[trigger] f.reads_seq(b) == pre.reads_seq(b),
            forall|b: Block, v: Value|
                #![trigger f.reads_seq(b).contains(v)]
                pre.valid_block(b) && f.reads_seq(b).contains(v) ==> (pre.reads_seq(b).contains(v)
                    || v == cv),
            forall|b: Block|
                b.0 < p_idx ==> !(#[trigger] f.reads_seq(b).contains(a)),
        decreases n - p_idx,
    {
        let p = Block(p_idx);
        let ghost cur = *f;
        proof {
            assert(f.block_wf(p));
            assert(f.op_of(p) == pre.op_of(p));
        }
        match f.block_kind(p) {
            None => {
                proof {
                    assert(f.reads_seq(p).len() == 0);
                    assert(!f.reads_seq(p).contains(a));
                    assert forall|b: Block| b.0 < p_idx + 1 implies !(
                    #[trigger] f.reads_seq(b).contains(a)) by {}
                    assert forall|b: Block|
                        p_idx + 1 <= b.0 < n implies #[trigger] f.reads_seq(b) == pre.reads_seq(
                        b,
                    ) by {}
                }
            },
            Some(op) => {
                let reads = f.block_reads(p);
                let m = reads.len();
                // does this site pass arguments positionally into t?
                let drops = matches!(op, OpKind::CallFlow) && m >= 1 && m - 1 == t_args.len()
                    && reads[0] == tv;
                let mut new_reads: Vec<Value> = Vec::new();
                let mut k: usize = 0;
                proof {
                    assert(cur.reads_seq(p).take(0) =~= Seq::<Value>::empty());
                }
                while k < m
                    invariant
                        k <= m,
                        m == cur.reads_seq(p).len(),
                        reads@ == cur.reads_seq(p),
                        *f == cur,
                        a == ga,
                        drops ==> m == 1 + pre.args_seq(t).len() && i < pre.args_seq(t).len(),
                        drops ==> cur.reads_seq(p) == pre.reads_seq(p),
                        forall|v: Value|
                            #[trigger] new_reads@.contains(v) ==> (cur.reads_seq(p).contains(v)
                                || v == cv) && v != a,
                        forall|j2: int|
                            0 <= j2 < new_reads@.len() ==> cur.valid_value(
                                #[trigger] new_reads@[j2],
                            ),
                        forall|s: Block|
                            #[trigger] reads_block_kind(cur, new_reads@, s) <==> reads_block_kind(
                                cur,
                                cur.reads_seq(p).take(k as int),
                                s,
                            ),
                    decreases m - k,
                {
                    proof {
                        assert(cur.block_wf(p));
                        assert(cur.valid_value(cur.reads_seq(p)[k as int]));
                        assert(cur.reads_seq(p).take(k + 1) =~= cur.reads_seq(p).take(
                            k as int,
                        ).push(cur.reads_seq(p)[k as int]));
                    }
                    let ghost nr_prev = new_reads@;
                    if drops && k == i + 1 {
                        // this operand position is the eliminated argument:
                        // a constant at every conforming site, so dropping
                        // it drops no block value
                        proof {
                            assert(cur.reads_seq(p) == pre.reads_seq(p));
                            assert(pre.site_is(t, p, 0)) by {
                                assert(pre.reads_seq(p)[0] == tv);
                                assert(pre.block_value_of(t) == tv);
                            }
                            assert(pre.site_conforms(t, i as int, p, 0));
                            assert(pre.kind_of(pre.reads_seq(p)[1 + i]) is Constant);
                            assert(cur.kind_of(cur.reads_seq(p)[k as int]) is Constant);
                            assert forall|s: Block|
                                #[trigger] reads_block_kind(cur, new_reads@, s)
                                    <==> reads_block_kind(
                                    cur,
                                    cur.reads_seq(p).take(k + 1),
                                    s,
                                ) by {
                                lemma_rbk_push(
                                    cur,
                                    cur.reads_seq(p).take(k as int),
                                    cur.reads_seq(p)[k as int],
                                    s,
                                );
                            }
                        }
                    } else {
                        let w = reads[k];
                        if w == a {
                            new_reads.push(cv);
                        } else {
                            new_reads.push(w);
                        }
                        proof {
                            assert forall|v: Value| #[trigger] new_reads@.contains(v) implies (
                            cur.reads_seq(p).contains(v) || v == cv) && v != a by {
                                let q = choose|q: int|
                                    0 <= q < new_reads@.len() && new_reads@[q] == v;
                                if q < nr_prev.len() {
                                    assert(nr_prev[q] == v);
                                    assert(nr_prev.contains(v));
                                } else {
                                    if w != a {
                                        assert(v == cur.reads_seq(p)[k as int]);
                                        assert(cur.reads_seq(p).contains(v));
                                    }
                                }
                            }
                            // the pushed operand is a block value exactly
                            // when the original one is: a substituted
                            // argument and its constant are neither
                            let ghost pushed: Value = if w == a {
                                cv
                            } else {
                                w
                            };
                            assert(new_reads@ == nr_prev.push(pushed));
                            assert forall|s: Block|
                                #[trigger] reads_block_kind(cur, new_reads@, s)
                                    <==> reads_block_kind(
                                    cur,
                                    cur.reads_seq(p).take(k + 1),
                                    s,
                                ) by {
                                lemma_rbk_push(cur, nr_prev, pushed, s);
                                lemma_rbk_push(
                                    cur,
                                    cur.reads_seq(p).take(k as int),
                                    cur.reads_seq(p)[k as int],
                                    s,
                                );
                                assert(cur.kind_of(pushed) == ValueType::Block(s)
                                    <==> cur.kind_of(cur.reads_seq(p)[k as int])
                                    == ValueType::Block(s)) by {
                                    if w == a {
                                        assert(cur.kind_of(a) == ValueType::Arg(t));
                                        assert(cur.kind_of(cv) is Constant);
                                    }
                                }
                            }
                        }
                    }
                    k = k + 1;
                }
                let ghost mid = *f;
                proof {
                    assert(mid.op_payload_ok(op)) by {
                        assert(mid.op_payload_wf(p));
                        assert(mid.op_of(p) == Some(op));
                    }
                }
                f.block_set_op(p, op, &new_reads);
                proof {
                    lemma_prop_misc_trans(pre, mid, *f);
                    // the rewrite names the same target blocks, so every
                    // edge stays where it was
                    let ghost tt = mid.block_targets(new_reads@);
                    mid.lemma_block_targets(new_reads@);
                    assert forall|s: Block| #[trigger] tt.contains(s) <==> mid.succs_seq(
                        p,
                    ).contains(s) by {
                        assert(tt.contains(s) <==> reads_block_kind(mid, new_reads@, s)) by {
                            if tt.contains(s) {
                                let q = choose|q: int|
                                    0 <= q < new_reads@.len() && mid.kind_of(
                                        #[trigger] new_reads@[q],
                                    ) == ValueType::Block(s);
                                assert(reads_block_kind(mid, new_reads@, s));
                            }
                            if reads_block_kind(mid, new_reads@, s) {
                                let q = choose|q: int|
                                    0 <= q < new_reads@.len() && mid.kind_of(
                                        #[trigger] new_reads@[q],
                                    ) == ValueType::Block(s);
                                assert(tt.contains(s));
                            }
                        }
                        assert(reads_block_kind(mid, new_reads@, s) <==> reads_block_kind(
                            mid,
                            mid.reads_seq(p).take(m as int),
                            s,
                        ));
                        assert(mid.reads_seq(p).take(m as int) =~= mid.reads_seq(p));
                        assert(reads_block_kind(mid, mid.reads_seq(p), s) <==> mid.is_block_read(
                            p,
                            s,
                        )) by {
                            if reads_block_kind(mid, mid.reads_seq(p), s) {
                                let q = choose|q: int|
                                    0 <= q < mid.reads_seq(p).len() && mid.kind_of(
                                        #[trigger] mid.reads_seq(p)[q],
                                    ) == ValueType::Block(s);
                                assert(mid.is_block_read(p, s));
                            }
                            if mid.is_block_read(p, s) {
                                let q = choose|q: int|
                                    0 <= q < mid.reads_seq(p).len() && mid.kind_of(
                                        #[trigger] mid.reads_seq(p)[q],
                                    ) == ValueType::Block(s);
                                assert(reads_block_kind(mid, mid.reads_seq(p), s));
                            }
                        }
                        assert(mid.edges_wf(p));
                        assert(mid.is_block_read(p, s) <==> mid.succs_seq(p).contains(s));
                    }
                    assert forall|b: Block| pre.valid_block(b) implies #[trigger] f.preds_seq(b)
                        == pre.preds_seq(b) by {
                        assert(f.preds_seq(b) == Function::preds_rewired(mid, p, tt, b));
                        assert(tt.contains(b) <==> mid.succs_seq(p).contains(b));
                        assert(mid.preds_seq(b) == pre.preds_seq(b));
                    }
                    assert forall|b: Block, s: Block|
                        #![trigger f.succs_seq(b).contains(s)]
                        pre.valid_block(b) implies (f.succs_seq(b).contains(s)
                        <==> pre.succs_seq(b).contains(s)) by {
                        if b == p {
                            assert(f.succs_seq(p) == tt);
                            assert(tt.contains(s) <==> mid.succs_seq(p).contains(s));
                            assert(mid.succs_seq(p).contains(s) <==> pre.succs_seq(p).contains(
                                s,
                            ));
                        } else {
                            assert(f.args_seq(b) == mid.args_seq(b));
                            assert(f.succs_seq(b) == mid.succs_seq(b));
                            assert(mid.succs_seq(b).contains(s) <==> pre.succs_seq(b).contains(
                                s,
                            ));
                        }
                    }
                    assert forall|b: Block|
                        p_idx + 1 <= b.0 < n implies #[trigger] f.reads_seq(b) == pre.reads_seq(
                        b,
                    ) by {
                        assert(b != p);
                        assert(pre.valid_block(b));
                        assert(f.args_seq(b) == mid.args_seq(b));
                        assert(f.reads_seq(b) == mid.reads_seq(b));
                        assert(mid.reads_seq(b) == pre.reads_seq(b));
                    }
                    assert forall|b: Block| pre.valid_block(b) implies #[trigger] f.op_of(b)
                        == pre.op_of(b) by {
                        if b != p {
                            assert(f.args_seq(b) == mid.args_seq(b));
                            assert(f.op_of(b) == mid.op_of(b));
                        } else {
                            assert(f.op_of(p) == Some(op));
                        }
                    }
                    assert forall|b: Block| pre.valid_block(b) implies #[trigger] f.args_seq(b)
                        == pre.args_seq(b) by {
                        assert(mid.args_seq(b) == pre.args_seq(b));
                        if b != p {
                            assert(f.args_seq(b) == mid.args_seq(b));
                        } else {
                            assert(f.args_seq(b) == mid.args_seq(b));
                        }
                    }
                    assert forall|b: Block, v: Value|
                        #![trigger f.reads_seq(b).contains(v)]
                        pre.valid_block(b) && f.reads_seq(b).contains(v) implies (pre.reads_seq(
                        b,
                    ).contains(v) || v == cv) by {
                        if b != p {
                            assert(f.args_seq(b) == mid.args_seq(b));
                            assert(f.reads_seq(b) == mid.reads_seq(b));
                            assert(mid.reads_seq(b).contains(v) ==> (pre.reads_seq(b).contains(v)
                                || v == cv));
                        } else {
                            assert(f.reads_seq(p) == new_reads@);
                        }
                    }
                    assert forall|b: Block| b.0 < p_idx + 1 implies !(
                    #[trigger] f.reads_seq(b).contains(a)) by {
                        if b.0 < p_idx {
                            assert(b != p);
                            assert(f.args_seq(b) == mid.args_seq(b));
                            assert(f.reads_seq(b) == mid.reads_seq(b));
                            assert(!mid.reads_seq(b).contains(a));
                        } else {
                            assert(b == p);
                            assert(f.reads_seq(p) == new_reads@);
                        }
                    }
                }
            },
        }
        p_idx = p_idx + 1;
    }
    // remove the parameter and forward the argument value
    let ghost before_remove = *f;
    f.block_args_remove(t, i);
    let ghost before_alias = *f;
    proof {
        assert(before_remove.args_seq(t) == pre.args_seq(t));
        assert(before_alias.args_seq(t) == pre.args_seq(t).remove(i as int));
        assert forall|b: Block| pre.valid_block(b) implies !(#[trigger] before_alias.args_seq(
            b,
        ).contains(a)) by {
            assert(pre.block_wf(b));
            if b != t {
                assert(before_alias.same_block_shape(before_remove, b));
                assert(before_alias.args_seq(b) == pre.args_seq(b));
                if pre.args_seq(b).contains(a) {
                    let q = choose|q: int|
                        0 <= q < pre.args_seq(b).len() && pre.args_seq(b)[q] == a;
                    assert(pre.kind_of(pre.args_seq(b)[q]) == ValueType::Arg(b));
                }
            } else {
                let s = before_alias.args_seq(t);
                pre.args_seq(t).remove_ensures(i as int);
                if s.contains(a) {
                    let q = choose|q: int| 0 <= q < s.len() && s[q] == a;
                    let q2: int = if q < i { q } else { q + 1 };
                    assert(s[q] == pre.args_seq(t)[q2]);
                    assert(pre.args_seq(t).no_duplicates()) by {
                        assert(pre.block_wf(t));
                    }
                }
            }
        }
        assert(before_alias.kind_of(a) == pre.kind_of(a));
        assert(before_alias.valid_value(cv));
    }
    let _tok = f.value_set_alias(a, cv);
    proof {
        let post = *f;
        assert forall|b: Block|
            #![trigger post.op_of(b)]
            #![trigger post.args_seq(b)]
            #![trigger post.reads_seq(b)]
            pre.valid_block(b) implies post.op_of(b) == pre.op_of(b) && post.args_seq(b)
            == before_alias.args_seq(b) && post.reads_seq(b) == before_alias.reads_seq(b) by {
            assert(post.same_block_shape(before_alias, b));
            assert(before_alias.op_of(b) == before_remove.op_of(b)) by {
                if b != t {
                    assert(before_alias.same_block_shape(before_remove, b));
                }
            }
        }
        lemma_prop_misc_trans(pre, before_remove, before_alias);
        lemma_prop_misc_trans(pre, before_alias, post);
        assert forall|b: Block, v: Value|
            #![trigger post.reads_seq(b).contains(v)]
            pre.valid_block(b) && post.reads_seq(b).contains(v) implies (pre.reads_seq(b).contains(
            v,
        ) || v == cv) && v != a by {
            assert(post.reads_seq(b) == before_alias.reads_seq(b));
            assert(before_alias.reads_seq(b) == before_remove.reads_seq(b)) by {
                if b != t {
                    assert(before_alias.same_block_shape(before_remove, b));
                }
            }
            assert(!before_remove.reads_seq(b).contains(a));
        }
        assert forall|b: Block| pre.valid_block(b) implies !(#[trigger] post.args_seq(b).contains(
            a,
        )) by {
            assert(post.args_seq(b) == before_alias.args_seq(b));
        }
        assert forall|v: Value| pre.valid_value(v) && v != a implies #[trigger] post.kind_of(v)
            == pre.kind_of(v) by {
            assert(before_alias.kind_of(v) == pre.kind_of(v));
        }
        assert forall|b: Block| pre.valid_block(b) && b != t implies #[trigger] post.args_seq(b)
            == pre.args_seq(b) by {
            assert(post.args_seq(b) == before_alias.args_seq(b));
            assert(before_alias.same_block_shape(before_remove, b));
            assert(before_remove.args_seq(b) == pre.args_seq(b));
        }
        assert forall|b: Block| pre.valid_block(b) implies #[trigger] post.preds_seq(b)
            == pre.preds_seq(b) by {
            assert(post.same_block_shape(before_alias, b));
            if b != t {
                assert(before_alias.same_block_shape(before_remove, b));
            } else {
                assert(before_alias.preds_seq(t) == before_remove.preds_seq(t));
            }
            assert(before_remove.preds_seq(b) == pre.preds_seq(b));
        }
        assert forall|b: Block, s: Block|
            #![trigger post.succs_seq(b).contains(s)]
            pre.valid_block(b) implies (post.succs_seq(b).contains(s) <==> pre.succs_seq(
            b,
        ).contains(s)) by {
            assert(post.same_block_shape(before_alias, b));
            assert(post.succs_seq(b) == before_alias.succs_seq(b));
            if b != t {
                assert(before_alias.same_block_shape(before_remove, b));
                assert(before_alias.succs_seq(b) == before_remove.succs_seq(b));
            } else {
                assert(before_alias.succs_seq(t) == before_remove.succs_seq(t));
            }
            assert(before_remove.succs_seq(b).contains(s) <==> pre.succs_seq(b).contains(s));
        }
    }
}

/// Total number of block parameters over the first `n` blocks.
pub open spec fn args_total_to(f: Function, n: int) -> nat
    decreases n,
{
    if n <= 0 {
        0
    } else {
        args_total_to(f, n - 1) + f.args_seq(Block((n - 1) as usize)).len()
    }
}

/// Total number of block parameters of the function.
pub open spec fn args_total(f: Function) -> nat {
    args_total_to(f, f.blocks@.len() as int)
}

/// Removing one parameter of one block lowers the total by one.
proof fn lemma_args_total_drop(pre: Function, post: Function, t: Block, n: int)
    requires
        pre.blocks@.len() == post.blocks@.len(),
        t.0 < pre.blocks@.len(),
        forall|b: Block|
            pre.valid_block(b) && b != t ==> #[trigger] post.args_seq(b) == pre.args_seq(b),
        post.args_seq(t).len() + 1 == pre.args_seq(t).len(),
        0 <= n <= pre.blocks@.len(),
        pre.blocks@.len() <= usize::MAX,
    ensures
        args_total_to(pre, n) == args_total_to(post, n) + (if (t.0 as int) < n {
            1nat
        } else {
            0nat
        }),
    decreases n,
{
    if n > 0 {
        lemma_args_total_drop(pre, post, t, n - 1);
        if (t.0 as int) == n - 1 {
        } else {
            assert(Block((n - 1) as usize) != t);
            assert(pre.valid_block(Block((n - 1) as usize)));
            assert(post.args_seq(Block((n - 1) as usize)) == pre.args_seq(
                Block((n - 1) as usize),
            ));
        }
    }
}

/// An unchanged function keeps its parameter total.
proof fn lemma_args_total_same(pre: Function, post: Function, n: int)
    requires
        pre.blocks@.len() == post.blocks@.len(),
        forall|b: Block| pre.valid_block(b) ==> #[trigger] post.args_seq(b) == pre.args_seq(b),
        0 <= n <= pre.blocks@.len(),
        pre.blocks@.len() <= usize::MAX,
    ensures
        args_total_to(pre, n) == args_total_to(post, n),
    decreases n,
{
    if n > 0 {
        lemma_args_total_same(pre, post, n - 1);
        assert(pre.valid_block(Block((n - 1) as usize)));
        assert(post.args_seq(Block((n - 1) as usize)) == pre.args_seq(Block((n - 1) as usize)));
    }
}

/// Chaining of `misc_retained` across two steps.
proof fn lemma_prop_misc_trans(a: Function, b: Function, c: Function)
    requires
        b.misc_retained(a),
        c.misc_retained(b),
    ensures
        c.misc_retained(a),
{
    assert forall|f2: crate::fun::FunRef| a.valid_fun_ref(f2) implies #[trigger] c.fun_refs@[f2.0 as int]
        == a.fun_refs@[f2.0 as int] by {
        assert(b.fun_refs@[f2.0 as int] == a.fun_refs@[f2.0 as int]);
        assert(b.valid_fun_ref(f2));
    }
    assert forall|c2: crate::constant::Const|
        a.constant_container.valid_const(c2) implies #[trigger] c.constant_container.term_of(c2)
        == a.constant_container.term_of(c2) by {
        assert(b.constant_container.term_of(c2) == a.constant_container.term_of(c2));
        assert(b.constant_container.valid_const(c2));
    }
    assert forall|c2: crate::pattern::PatternClause|
        a.pattern_container.valid_clause(c2) implies #[trigger] c.pattern_container.clause_pattern(
        c2,
    ) == a.pattern_container.clause_pattern(c2) && c.pattern_container.clause_binds(c2)
        == a.pattern_container.clause_binds(c2) by {
        assert(b.pattern_container.clause_pattern(c2) == a.pattern_container.clause_pattern(c2));
        assert(b.pattern_container.clause_binds(c2) == a.pattern_container.clause_binds(c2));
        assert(b.pattern_container.valid_clause(c2));
    }
}
/// What one propagation step or sweep may do to the function: ops,
/// edges and the calling convention are kept, argument lists only
/// shrink, kinds only move from argument to alias, rewritten reads hold
/// only old operands or constants, blocks without predecessors are left
/// alone, and an argument turned alias is read and bound nowhere.
pub open spec fn sweep_shape(pre: Function, post: Function) -> bool {
    &&& post.blocks@.len() == pre.blocks@.len()
    &&& post.values@.len() == pre.values@.len()
    &&& post.misc_retained(pre)
    &&& post.entry_block == pre.entry_block
    &&& forall|b: Block| pre.valid_block(b) ==> #[trigger] post.op_of(b) == pre.op_of(b)
    &&& forall|v: Value|
        pre.valid_value(v) ==> #[trigger] post.kind_of(v) == pre.kind_of(v) || (pre.kind_of(v)
            is Arg && post.kind_of(v) is Alias)
    &&& forall|b: Block| pre.valid_block(b) ==> #[trigger] post.preds_seq(b) == pre.preds_seq(b)
    &&& forall|b: Block, s: Block|
        #![trigger post.succs_seq(b).contains(s)]
        pre.valid_block(b) ==> (post.succs_seq(b).contains(s) <==> pre.succs_seq(b).contains(s))
    &&& forall|b: Block, v: Value|
        #![trigger post.args_seq(b).contains(v)]
        pre.valid_block(b) && post.args_seq(b).contains(v) ==> pre.args_seq(b).contains(v)
    &&& forall|b: Block, v: Value|
        #![trigger post.reads_seq(b).contains(v)]
        pre.valid_block(b) && post.reads_seq(b).contains(v) ==> pre.reads_seq(b).contains(v) || (
        pre.valid_value(v) && pre.kind_of(v) is Constant)
    &&& forall|b: Block|
        pre.valid_block(b) && pre.preds_seq(b).len() == 0 ==> #[trigger] post.args_seq(b)
            == pre.args_seq(b)
    &&& match pre.entry_block {
        Some(e) => post.args_seq(e) == pre.args_seq(e),
        None => true,
    }
    &&& forall|v: Value, b: Block|
        #![trigger post.kind_of(v), post.reads_seq(b)]
        #![trigger post.kind_of(v), post.args_seq(b)]
        pre.valid_value(v) && !(pre.kind_of(v) is Alias) && post.kind_of(v) is Alias
            && pre.valid_block(b) ==> !post.reads_seq(b).contains(v) && !post.args_seq(b).contains(
            v,
        )
}

/// A function relates to itself by a sweep that did nothing.
proof fn lemma_sweep_shape_refl(f: Function)
    ensures
        sweep_shape(f, f),
{
    assert forall|v: Value| f.valid_value(v) implies #[trigger] f.kind_of(v) == f.kind_of(v) by {}
    assert forall|b: Block| f.valid_block(b) implies #[trigger] f.op_of(b) == f.op_of(b) by {}
    assert forall|b: Block| f.valid_block(b) implies #[trigger] f.preds_seq(b) == f.preds_seq(
        b,
    ) by {}
    assert forall|f2: crate::fun::FunRef| f.valid_fun_ref(f2) implies #[trigger] f.fun_refs@[f2.0 as int]
        == f.fun_refs@[f2.0 as int] by {}
    assert forall|c2: crate::constant::Const|
        f.constant_container.valid_const(c2) implies #[trigger] f.constant_container.term_of(c2)
        == f.constant_container.term_of(c2) by {}
    assert forall|c2: crate::pattern::PatternClause|
        f.pattern_container.valid_clause(c2) implies #[trigger] f.pattern_container.clause_pattern(
        c2,
    ) == f.pattern_container.clause_pattern(c2) && f.pattern_container.clause_binds(c2)
        == f.pattern_container.clause_binds(c2) by {}
}

/// Sweep steps compose.
proof fn lemma_sweep_shape_trans(a: Function, b: Function, c: Function)
    requires
        sweep_shape(a, b),
        sweep_shape(b, c),
    ensures
        sweep_shape(a, c),
{
    lemma_prop_misc_trans(a, b, c);
    assert forall|bk: Block| a.valid_block(bk) implies #[trigger] c.op_of(bk) == a.op_of(bk) by {
        assert(b.op_of(bk) == a.op_of(bk));
        assert(b.valid_block(bk));
        assert(c.op_of(bk) == b.op_of(bk));
    }
    assert forall|v: Value|
        a.valid_value(v) implies #[trigger] c.kind_of(v) == a.kind_of(v) || (a.kind_of(v) is Arg
        && c.kind_of(v) is Alias) by {
        assert(b.valid_value(v));
        assert(b.kind_of(v) == a.kind_of(v) || (a.kind_of(v) is Arg && b.kind_of(v) is Alias));
        assert(c.kind_of(v) == b.kind_of(v) || (b.kind_of(v) is Arg && c.kind_of(v) is Alias));
    }
    assert forall|bk: Block| a.valid_block(bk) implies #[trigger] c.preds_seq(bk) == a.preds_seq(
        bk,
    ) by {
        assert(b.preds_seq(bk) == a.preds_seq(bk));
        assert(b.valid_block(bk));
        assert(c.preds_seq(bk) == b.preds_seq(bk));
    }
    assert forall|bk: Block, s: Block|
        #![trigger c.succs_seq(bk).contains(s)]
        a.valid_block(bk) implies (c.succs_seq(bk).contains(s) <==> a.succs_seq(bk).contains(
        s,
    )) by {
        assert(b.valid_block(bk));
        assert(c.succs_seq(bk).contains(s) <==> b.succs_seq(bk).contains(s));
        assert(b.succs_seq(bk).contains(s) <==> a.succs_seq(bk).contains(s));
    }
    assert forall|bk: Block, v: Value|
        #![trigger c.args_seq(bk).contains(v)]
        a.valid_block(bk) && c.args_seq(bk).contains(v) implies a.args_seq(bk).contains(v) by {
        assert(b.valid_block(bk));
        assert(b.args_seq(bk).contains(v));
    }
    assert forall|bk: Block, v: Value|
        #![trigger c.reads_seq(bk).contains(v)]
        a.valid_block(bk) && c.reads_seq(bk).contains(v) implies a.reads_seq(bk).contains(v) || (
        a.valid_value(v) && a.kind_of(v) is Constant) by {
        assert(b.valid_block(bk));
        assert(b.reads_seq(bk).contains(v) || (b.valid_value(v) && b.kind_of(v) is Constant));
        if !b.reads_seq(bk).contains(v) {
            assert(b.valid_value(v));
            assert(a.valid_value(v));
            assert(b.kind_of(v) == a.kind_of(v) || (a.kind_of(v) is Arg && b.kind_of(v)
                is Alias));
        }
    }
    assert forall|bk: Block|
        a.valid_block(bk) && a.preds_seq(bk).len() == 0 implies #[trigger] c.args_seq(bk)
        == a.args_seq(bk) by {
        assert(b.args_seq(bk) == a.args_seq(bk));
        assert(b.valid_block(bk));
        assert(b.preds_seq(bk) == a.preds_seq(bk));
        assert(c.args_seq(bk) == b.args_seq(bk));
    }
    assert(match a.entry_block {
        Some(e) => c.args_seq(e) == a.args_seq(e),
        None => true,
    }) by {
        match a.entry_block {
            Some(e) => {
                assert(b.entry_block == a.entry_block);
                assert(b.args_seq(e) == a.args_seq(e));
                assert(c.args_seq(e) == b.args_seq(e));
            },
            None => {},
        }
    }
    assert forall|v: Value, bk: Block|
        #![trigger c.kind_of(v), c.reads_seq(bk)]
        #![trigger c.kind_of(v), c.args_seq(bk)]
        a.valid_value(v) && !(a.kind_of(v) is Alias) && c.kind_of(v) is Alias && a.valid_block(
            bk,
        ) implies !c.reads_seq(bk).contains(v) && !c.args_seq(bk).contains(v) by {
        assert(b.valid_value(v));
        assert(b.valid_block(bk));
        if b.kind_of(v) is Alias {
            // aliased already after the first step: not contained there,
            // and the second step never reintroduces it
            assert(!b.reads_seq(bk).contains(v) && !b.args_seq(bk).contains(v));
            if c.reads_seq(bk).contains(v) {
                assert(b.reads_seq(bk).contains(v) || (b.valid_value(v) && b.kind_of(v)
                    is Constant));
            }
            if c.args_seq(bk).contains(v) {
                assert(b.args_seq(bk).contains(v));
            }
        } else {
            // aliased by the second step
            assert(!c.reads_seq(bk).contains(v) && !c.args_seq(bk).contains(v));
        }
    }
}

/// Every use of `t`'s value up to the scan position invokes `t` directly
/// and passes `c0` for parameter `i`.
spec fn scan_ok(cur: Function, t: Block, i: int, c0: Value, p_hi: int, k_hi: int) -> bool {
    forall|p2: Block, k2: int|
        #![trigger cur.reads_seq(p2)[k2]]
        ((p2.0 as int) < p_hi || ((p2.0 as int) == p_hi && k2 < k_hi)) && cur.site_is(t, p2, k2)
            ==> cur.site_conforms(t, i, p2, k2) && cur.reads_seq(p2)[1 + i] == c0
}

/// No use of `t`'s value occurs up to the scan position.
spec fn scan_empty(cur: Function, t: Block, p_hi: int, k_hi: int) -> bool {
    forall|p2: Block, k2: int|
        #![trigger cur.reads_seq(p2)[k2]]
        ((p2.0 as int) < p_hi || ((p2.0 as int) == p_hi && k2 < k_hi)) ==> !cur.site_is(t, p2, k2)
}

/// One propagation sweep over every block and parameter position:
/// whenever every use of a block's value invokes it directly and every
/// call site passes one same constant for a position, that parameter is
/// eliminated. Returns whether anything was eliminated; when nothing
/// was, the function is untouched and no eliminable parameter remains.
#[verifier::loop_isolation(false)]
fn propagate_sweep(f: &mut Function) -> (changed: bool)
    requires
        old(f).wf(),
        old(f).graph_wf(),
    ensures
        final(f).wf(),
        final(f).graph_wf(),
        sweep_shape(*old(f), *final(f)),
        !changed ==> *final(f) == *old(f) && (forall|t: Block, i: int|
            !final(f).arg_eliminable(t, i)),
        changed ==> args_total(*final(f)) < args_total(*old(f)),
        args_total(*final(f)) <= args_total(*old(f)),
{
    let ghost pre = *old(f);
    proof {
        lemma_sweep_shape_refl(pre);
    }
    let n = f.blocks.len();
    let mut changed = false;
    let mut t_idx: usize = 0;
    while t_idx < n
        invariant
            t_idx <= n,
            n == pre.blocks@.len(),
            f.wf(),
            f.graph_wf(),
            sweep_shape(pre, *f),
            args_total(*f) <= args_total(pre),
            changed ==> args_total(*f) < args_total(pre),
            !changed ==> *f == pre && (forall|t2: Block, i2: int|
                (t2.0 as int) < t_idx as int ==> !f.arg_eliminable(t2, i2)),
        decreases n - t_idx,
    {
        let t = Block(t_idx);
        let skip = match f.entry_block {
            Some(e) => e.0 == t_idx,
            None => false,
        };
        if !skip {
            let mut i: usize = 0;
            while i < f.block_args(t).len()
                invariant
                    t.0 < n,
                    t.0 == t_idx,
                    n == pre.blocks@.len(),
                    f.wf(),
                    f.graph_wf(),
                    f.entry_block != Some(t),
                    sweep_shape(pre, *f),
                    args_total(*f) <= args_total(pre),
                    changed ==> args_total(*f) < args_total(pre),
                    !changed ==> *f == pre && (forall|t2: Block, i2: int|
                        (t2.0 as int) < t_idx as int ==> !f.arg_eliminable(t2, i2)) && (forall|
                        i2: int,
                    |
                        0 <= i2 < i as int ==> !f.arg_eliminable(t, i2)),
                decreases f.args_seq(t).len() + 1 - i,
            {
                let ghost cur = *f;
                let ghost args_len_at_entry = f.args_seq(t).len();
                let tv = f.block_value(t);
                let t_args_len = f.block_args(t).len();
                // scan every use of the block's value: all must invoke it
                // directly and pass the same constant at this position
                let mut ok = true;
                let mut cv_opt: Option<Value> = None;
                let mut p_idx: usize = 0;
                proof {
                    assert(scan_empty(cur, t, 0, 0));
                }
                while p_idx < n
                    invariant
                        p_idx <= n,
                        n == f.blocks@.len(),
                        *f == cur,
                        f.wf(),
                        f.graph_wf(),
                        i < t_args_len,
                        t_args_len == f.args_seq(t).len(),
                        t.0 < n,
                        tv == cur.block_value_of(t),
                        ok ==> match cv_opt {
                            Some(c0) => scan_ok(cur, t, i as int, c0, p_idx as int, 0)
                                && cur.valid_value(c0) && cur.kind_of(c0) is Constant && (exists|
                                p2: Block,
                                k2: int,
                            |
                                cur.site_is(t, p2, k2) && cur.reads_seq(p2)[1 + i as int] == c0
                                    && #[trigger] cur.reads_seq(p2)[k2] == tv),
                            None => scan_empty(cur, t, p_idx as int, 0),
                        },
                        !ok ==> !cur.arg_eliminable(t, i as int),
                    decreases n - p_idx,
                {
                    let p = Block(p_idx);
                    proof {
                        assert(f.block_wf(p));
                    }
                    let ghost ok_at = ok;
                    let ghost cv_at = cv_opt;
                    match f.block_kind(p) {
                        None => {
                            proof {
                                assert(f.reads_seq(p).len() == 0);
                                if ok {
                                    match cv_opt {
                                        Some(c0) => {
                                            assert(scan_ok(
                                                cur,
                                                t,
                                                i as int,
                                                c0,
                                                p_idx as int + 1,
                                                0,
                                            )) by {
                                                assert forall|p2: Block, k2: int|
                                                    #![trigger cur.reads_seq(p2)[k2]]
                                                    ((p2.0 as int) < p_idx as int + 1 || ((p2.0
                                                        as int) == p_idx as int + 1 && k2 < 0))
                                                        && cur.site_is(t, p2, k2) implies
                                                    cur.site_conforms(t, i as int, p2, k2)
                                                        && cur.reads_seq(p2)[1 + i as int]
                                                        == c0 by {
                                                    if p2 == p {
                                                        assert(cur.reads_seq(p2).len() == 0);
                                                    }
                                                }
                                            }
                                        },
                                        None => {
                                            assert(scan_empty(cur, t, p_idx as int + 1, 0)) by {
                                                assert forall|p2: Block, k2: int|
                                                    #![trigger cur.reads_seq(p2)[k2]]
                                                    ((p2.0 as int) < p_idx as int + 1 || ((p2.0
                                                        as int) == p_idx as int + 1 && k2
                                                        < 0)) implies !cur.site_is(t, p2, k2) by {
                                                    if p2 == p {
                                                        assert(cur.reads_seq(p2).len() == 0);
                                                    }
                                                }
                                            }
                                        },
                                    }
                                }
                            }
                        },
                        Some(op) => {
                            let reads = f.block_reads(p);
                            let m = reads.len();
                            let mut k: usize = 0;
                            while k < m
                                invariant
                                    k <= m,
                                    m == cur.reads_seq(p).len(),
                                    reads@ == cur.reads_seq(p),
                                    *f == cur,
                                    f.wf(),
                                    f.valid_block(p),
                                    p.0 == p_idx,
                                    p_idx < n,
                                    cur.op_of(p) == Some(op),
                                    i < t_args_len,
                                    t_args_len == f.args_seq(t).len(),
                                    t.0 < n,
                                    tv == cur.block_value_of(t),
                                    ok ==> match cv_opt {
                                        Some(c0) => scan_ok(
                                            cur,
                                            t,
                                            i as int,
                                            c0,
                                            p_idx as int,
                                            k as int,
                                        ) && cur.valid_value(c0) && cur.kind_of(c0) is Constant
                                            && (exists|p2: Block, k2: int|
                                            cur.site_is(t, p2, k2) && cur.reads_seq(p2)[1 + i as int] == c0
                                            && #[trigger] cur.reads_seq(p2)[k2] == tv),
                                        None => scan_empty(cur, t, p_idx as int, k as int),
                                    },
                                    !ok ==> !cur.arg_eliminable(t, i as int),
                                decreases m - k,
                            {
                                proof {
                                    assert(cur.block_wf(p));
                                    assert(cur.valid_value(cur.reads_seq(p)[k as int]));
                                }
                                if reads[k] == tv {
                                    proof {
                                        assert(cur.site_is(t, p, k as int));
                                    }
                                    let direct = matches!(op, OpKind::CallFlow) && k == 0 && m
                                        >= 1 && m - 1 == t_args_len;
                                    if !direct {
                                        proof {
                                            assert(!cur.arg_eliminable(t, i as int)) by {
                                                if cur.arg_eliminable(t, i as int) {
                                                    let cvw = choose|cvw: Value|
                                                        cur.valid_value(cvw) && (
                                                        #[trigger] cur.kind_of(cvw)) is Constant
                                                            && cur.sites_pass(t, i as int, cvw);
                                                    assert(cur.site_conforms(
                                                        t,
                                                        i as int,
                                                        p,
                                                        k as int,
                                                    ));
                                                }
                                            }
                                        }
                                        ok = false;
                                    } else {
                                        let x = reads[i + 1];
                                        proof {
                                            assert(cur.valid_value(cur.reads_seq(p)[i + 1]));
                                        }
                                        if !f.value_is_constant(x) {
                                            proof {
                                                assert(!cur.arg_eliminable(t, i as int)) by {
                                                    if cur.arg_eliminable(t, i as int) {
                                                        let cvw = choose|cvw: Value|
                                                            cur.valid_value(cvw) && (
                                                            #[trigger] cur.kind_of(cvw))
                                                                is Constant && cur.sites_pass(
                                                                t,
                                                                i as int,
                                                                cvw,
                                                            );
                                                        assert(cur.site_conforms(
                                                            t,
                                                            i as int,
                                                            p,
                                                            k as int,
                                                        ));
                                                        assert(cur.reads_seq(p)[1 + i as int]
                                                            == cvw);
                                                    }
                                                }
                                            }
                                            ok = false;
                                        } else {
                                            match cv_opt {
                                                None => {
                                                    proof {
                                                        if ok {
                                                        assert(cur.site_conforms(
                                                            t,
                                                            i as int,
                                                            p,
                                                            k as int,
                                                        ));
                                                        assert(scan_ok(
                                                            cur,
                                                            t,
                                                            i as int,
                                                            cur.reads_seq(p)[1 + i as int],
                                                            p_idx as int,
                                                            k as int + 1,
                                                        )) by {
                                                            assert forall|p2: Block, k2: int|
                                                                #![trigger cur.reads_seq(p2)[k2]]
                                                                ((p2.0 as int) < p_idx as int || ((
                                                                p2.0 as int) == p_idx as int && k2
                                                                    < k as int + 1))
                                                                    && cur.site_is(
                                                                    t,
                                                                    p2,
                                                                    k2,
                                                                ) implies cur.site_conforms(
                                                                t,
                                                                i as int,
                                                                p2,
                                                                k2,
                                                            ) && cur.reads_seq(p2)[1 + i as int]
                                                                == cur.reads_seq(p)[1
                                                                + i as int] by {
                                                                if p2 == p && k2 == k as int {
                                                                    assert(cur.site_conforms(
                                                                        t,
                                                                        i as int,
                                                                        p2,
                                                                        k2,
                                                                    ));
                                                                } else {
                                                                    assert(cur.reads_seq(p2)[k2]
                                                                        == cur.reads_seq(p2)[k2]);
                                                                    assert(!cur.site_is(
                                                                        t,
                                                                        p2,
                                                                        k2,
                                                                    ));
                                                                }
                                                            }
                                                        }
                                                        }
                                                    }
                                                    cv_opt = Some(x);
                                                },
                                                Some(c0) => {
                                                    if c0 == x {
                                                        proof {
                                                            if ok {
                                                            assert(cur.site_conforms(
                                                                t,
                                                                i as int,
                                                                p,
                                                                k as int,
                                                            ));
                                                            assert(scan_ok(
                                                                cur,
                                                                t,
                                                                i as int,
                                                                c0,
                                                                p_idx as int,
                                                                k as int + 1,
                                                            )) by {
                                                                assert forall|p2: Block, k2: int|
                                                                    #![trigger cur.reads_seq(p2)[k2]]
                                                                    ((p2.0 as int) < p_idx as int
                                                                        || ((p2.0 as int) == p_idx
                                                                        as int && k2 < k as int
                                                                        + 1)) && cur.site_is(
                                                                        t,
                                                                        p2,
                                                                        k2,
                                                                    ) implies cur.site_conforms(
                                                                    t,
                                                                    i as int,
                                                                    p2,
                                                                    k2,
                                                                ) && cur.reads_seq(p2)[1 + i as int]
                                                                    == c0 by {
                                                                    if p2 == p && k2 == k as int {
                                                                        assert(cur.reads_seq(p)[1
                                                                            + i as int] == x);
                                                                    }
                                                                }
                                                            }
                                                            }
                                                        }
                                                    } else {
                                                        proof {
                                                            assert(!cur.arg_eliminable(
                                                                t,
                                                                i as int,
                                                            )) by {
                                                                if cur.arg_eliminable(
                                                                    t,
                                                                    i as int,
                                                                ) {
                                                                    let cvw = choose|cvw: Value|
                                                                        cur.valid_value(cvw) && (
                                                                        #[trigger] cur.kind_of(
                                                                            cvw,
                                                                        )) is Constant
                                                                            && cur.sites_pass(
                                                                            t,
                                                                            i as int,
                                                                            cvw,
                                                                        );
                                                                    // this site passes x
                                                                    assert(cur.reads_seq(p)[1
                                                                        + i as int] == cvw);
                                                                    // an earlier site passed c0
                                                                    let (p2, k2) = choose|
                                                                        p2: Block,
                                                                        k2: int,
                                                                    |
                                                                        cur.site_is(t, p2, k2)
                                                                            && cur.reads_seq(p2)[1
                                                                            + i as int] == c0
                                                                            && #[trigger] cur.reads_seq(
                                                                            p2,
                                                                        )[k2] == tv;
                                                                    assert(cur.reads_seq(p2)[1
                                                                        + i as int] == cvw);
                                                                }
                                                            }
                                                        }
                                                        ok = false;
                                                    }
                                                },
                                            }
                                        }
                                    }
                                } else {
                                    proof {
                                        assert(!cur.site_is(t, p, k as int));
                                        if ok {
                                            match cv_opt {
                                                Some(c0) => {
                                                    assert(scan_ok(
                                                        cur,
                                                        t,
                                                        i as int,
                                                        c0,
                                                        p_idx as int,
                                                        k as int + 1,
                                                    ));
                                                },
                                                None => {
                                                    assert(scan_empty(
                                                        cur,
                                                        t,
                                                        p_idx as int,
                                                        k as int + 1,
                                                    ));
                                                },
                                            }
                                        }
                                    }
                                }
                                k = k + 1;
                            }
                            proof {
                                if ok {
                                    match cv_opt {
                                        Some(c0) => {
                                            assert(scan_ok(
                                                cur,
                                                t,
                                                i as int,
                                                c0,
                                                p_idx as int + 1,
                                                0,
                                            )) by {
                                                assert forall|p2: Block, k2: int|
                                                    #![trigger cur.reads_seq(p2)[k2]]
                                                    ((p2.0 as int) < p_idx as int + 1 || ((p2.0
                                                        as int) == p_idx as int + 1 && k2 < 0))
                                                        && cur.site_is(t, p2, k2) implies
                                                    cur.site_conforms(t, i as int, p2, k2)
                                                        && cur.reads_seq(p2)[1 + i as int]
                                                        == c0 by {
                                                    if p2 == p {
                                                        assert(k2 < m as int);
                                                    }
                                                }
                                            }
                                        },
                                        None => {
                                            assert(scan_empty(cur, t, p_idx as int + 1, 0)) by {
                                                assert forall|p2: Block, k2: int|
                                                    #![trigger cur.reads_seq(p2)[k2]]
                                                    ((p2.0 as int) < p_idx as int + 1 || ((p2.0
                                                        as int) == p_idx as int + 1 && k2
                                                        < 0)) implies !cur.site_is(t, p2, k2) by {
                                                    if p2 == p {
                                                        assert(k2 < m as int ==> !cur.site_is(
                                                            t,
                                                            p2,
                                                            k2,
                                                        ));
                                                    }
                                                }
                                            }
                                        },
                                    }
                                }
                            }
                        },
                    }
                    p_idx = p_idx + 1;
                }
                match cv_opt {
                    Some(cv) => {
                        if ok {
                            proof {
                                // every site conforms and passes cv
                                assert(cur.sites_pass(t, i as int, cv)) by {
                                    assert forall|p2: Block, k2: int|
                                        #![trigger cur.reads_seq(p2)[k2]]
                                        cur.site_is(t, p2, k2) implies cur.site_conforms(
                                        t,
                                        i as int,
                                        p2,
                                        k2,
                                    ) && cur.reads_seq(p2)[1 + i as int] == cv by {
                                        assert((p2.0 as int) < n as int);
                                    }
                                }
                                // a use exists, so the block has a caller
                                assert(cur.preds_seq(t).len() > 0) by {
                                    let (p2, k2) = choose|p2: Block, k2: int|
                                        cur.site_is(t, p2, k2) && cur.reads_seq(p2)[1 + i as int]
                                            == cv && #[trigger] cur.reads_seq(p2)[k2] == tv;
                                    assert(cur.block_wf(p2));
                                    assert(cur.kind_of(cur.reads_seq(p2)[k2]) == ValueType::Block(
                                        t,
                                    )) by {
                                        assert(cur.block_values_wf());
                                    }
                                    assert(cur.edges_wf(p2));
                                    assert(cur.succs_seq(p2).contains(t));
                                    assert(cur.preds_seq(t).contains(p2));
                                    let q = choose|q: int|
                                        0 <= q < cur.preds_seq(t).len() && cur.preds_seq(t)[q]
                                            == p2;
                                }
                            }
                            let ghost old_args_len = f.args_seq(t).len();
                            eliminate_arg(f, t, i, tv, cv);
                            proof {
                                let post = *f;
                                let ga = cur.args_seq(t)[i as int];
                                assert(cur.block_wf(t));
                                // one sweep step
                                assert(sweep_shape(cur, post)) by {
                                    assert forall|v: Value|
                                        cur.valid_value(v) implies #[trigger] post.kind_of(v)
                                        == cur.kind_of(v) || (cur.kind_of(v) is Arg
                                        && post.kind_of(v) is Alias) by {
                                        if v == ga {
                                            assert(cur.kind_of(ga) == ValueType::Arg(t));
                                            assert(post.kind_of(ga) == ValueType::Alias(cv));
                                        } else {
                                            assert(post.kind_of(v) == cur.kind_of(v));
                                        }
                                    }
                                    assert forall|b: Block, v: Value|
                                        #![trigger post.args_seq(b).contains(v)]
                                        cur.valid_block(b) && post.args_seq(b).contains(
                                            v,
                                        ) implies cur.args_seq(b).contains(v) by {
                                        if b == t {
                                            let q = choose|q: int|
                                                0 <= q < post.args_seq(t).len() && post.args_seq(
                                                    t,
                                                )[q] == v;
                                            cur.args_seq(t).remove_ensures(i as int);
                                            let q2: int = if q < i as int {
                                                q
                                            } else {
                                                q + 1
                                            };
                                            assert(post.args_seq(t)[q] == cur.args_seq(t)[q2]);
                                        } else {
                                            assert(post.args_seq(b) == cur.args_seq(b));
                                        }
                                    }
                                    assert forall|b: Block, v: Value|
                                        #![trigger post.reads_seq(b).contains(v)]
                                        cur.valid_block(b) && post.reads_seq(b).contains(
                                            v,
                                        ) implies cur.reads_seq(b).contains(v) || (cur.valid_value(
                                            v,
                                        ) && cur.kind_of(v) is Constant) by {}
                                    assert forall|b: Block|
                                        cur.valid_block(b) && cur.preds_seq(b).len()
                                            == 0 implies #[trigger] post.args_seq(b)
                                        == cur.args_seq(b) by {
                                        assert(b != t);
                                    }
                                    assert(match cur.entry_block {
                                        Some(e) => post.args_seq(e) == cur.args_seq(e),
                                        None => true,
                                    }) by {
                                        match cur.entry_block {
                                            Some(e) => {
                                                assert(e != t);
                                            },
                                            None => {},
                                        }
                                    }
                                    assert forall|v: Value, b: Block|
                                        #![trigger post.kind_of(v), post.reads_seq(b)]
                                        #![trigger post.kind_of(v), post.args_seq(b)]
                                        cur.valid_value(v) && !(cur.kind_of(v) is Alias)
                                            && post.kind_of(v) is Alias && cur.valid_block(
                                            b,
                                        ) implies !post.reads_seq(b).contains(v)
                                            && !post.args_seq(b).contains(v) by {
                                        if v != ga {
                                            assert(post.kind_of(v) == cur.kind_of(v));
                                        }
                                    }
                                }
                                lemma_sweep_shape_trans(pre, cur, post);
                                // the parameter total went down by one
                                assert(cur.blocks@.len() == n as int);
                                lemma_args_total_drop(cur, post, t, n as int);
                                assert(args_total(cur) == args_total(post) + 1);
                                assert(args_total(*f) < args_total(pre)) by {
                                    if changed {
                                    } else {
                                        assert(cur == pre);
                                    }
                                }
                            }
                            changed = true;
                        }
                    },
                    None => {
                        proof {
                            if ok {
                                // no use at all: the parameter is not up
                                // for elimination
                                assert(!cur.arg_eliminable(t, i as int)) by {
                                    if cur.arg_eliminable(t, i as int) {
                                        let (p2, k2) = choose|p2: Block, k2: int|
                                            cur.valid_block(p2) && 0 <= k2 < cur.reads_seq(
                                                p2,
                                            ).len() && #[trigger] cur.reads_seq(p2)[k2]
                                                == cur.block_value_of(t);
                                        assert((p2.0 as int) < n as int);
                                        assert(cur.site_is(t, p2, k2));
                                        assert(!cur.site_is(t, p2, k2));
                                    }
                                }
                            }
                        }
                    },
                }
                proof {
                    if !changed {
                        assert(*f == cur);
                        assert(!f.arg_eliminable(t, i as int));
                        assert forall|i2: int| 0 <= i2 < i as int + 1 implies !f.arg_eliminable(
                            t,
                            i2,
                        ) by {}
                    }
                }
                i = i + 1;
            }
            proof {
                if !changed {
                    assert forall|t2: Block, i2: int|
                        (t2.0 as int) < t_idx as int + 1 implies !f.arg_eliminable(t2, i2) by {
                        if (t2.0 as int) == t_idx as int {
                            assert(t2 == t);
                            if 0 <= i2 < f.args_seq(t).len() {
                                assert(!f.arg_eliminable(t, i2));
                            }
                        }
                    }
                }
            }
        } else {
            proof {
                if !changed {
                    assert forall|t2: Block, i2: int|
                        (t2.0 as int) < t_idx as int + 1 implies !f.arg_eliminable(t2, i2) by {
                        if (t2.0 as int) == t_idx as int {
                            assert(t2 == t);
                            assert(f.entry_block == Some(t));
                        }
                    }
                }
            }
        }
        t_idx = t_idx + 1;
    }
    proof {
        if !changed {
            assert forall|t2: Block, i2: int| true implies !f.arg_eliminable(t2, i2) by {
                if f.arg_eliminable(t2, i2) {
                    assert((t2.0 as int) < n as int);
                }
            }
        }
    }
    changed
}

/// Atomic propagation over a whole function, run to a fixed point:
/// every block argument whose every caller invokes the block directly
/// and passes one same constant is eliminated; its uses are rewritten
/// to the constant and the value forwards to it. The pass propagates
/// constants only; a block with no predecessors is left unchanged, and
/// so is the entry block. Afterwards no eliminable parameter remains,
/// and no argument the pass turned into an alias is read or bound
/// anywhere.
#[verifier::loop_isolation(false)]
pub fn propagate_atomics(f: &mut Function)
    requires
        old(f).wf(),
        old(f).graph_wf(),
    ensures
        final(f).wf(),
        final(f).graph_wf(),
        sweep_shape(*old(f), *final(f)),
        forall|t: Block, i: int| !final(f).arg_eliminable(t, i),
{
    let ghost pre0 = *old(f);
    proof {
        lemma_sweep_shape_refl(pre0);
    }
    let mut done = false;
    while !done
        invariant
            f.wf(),
            f.graph_wf(),
            sweep_shape(pre0, *f),
            done ==> forall|t: Block, i: int| !f.arg_eliminable(t, i),
        decreases args_total(*f) + (if done {
            0int
        } else {
            1int
        }),
    {
        let ghost prev = *f;
        let changed = propagate_sweep(f);
        proof {
            lemma_sweep_shape_trans(pre0, prev, *f);
        }
        if !changed {
            done = true;
        }
    }
}

} // verus!
