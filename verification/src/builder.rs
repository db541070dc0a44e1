//! Mutation interface of the function graph.
//!
//! Blocks and values are appended monotonically; assigning an op to a
//! block atomically rewrites the block's reads, recomputes its successor
//! set from the block-kind operands, and updates both endpoints of every
//! edge, so the graph invariants hold after every mutation.

use vstd::prelude::*;
use crate::constant::AtomicTerm;
use crate::fun::{Block, BlockData, Function, FunRef, Value, ValueData, ValueType};
use crate::pool::ListHandle;
use crate::{FunctionIdent, Span};

verus! {

impl Function {
    /// One block's stored shape is the same as in `pre`.
    pub open spec fn same_block_shape(self, pre: Function, b: Block) -> bool {
        &&& self.args_seq(b) == pre.args_seq(b)
        &&& self.reads_seq(b) == pre.reads_seq(b)
        &&& self.succs_seq(b) == pre.succs_seq(b)
        &&& self.preds_seq(b) == pre.preds_seq(b)
        &&& self.op_of(b) == pre.op_of(b)
        &&& self.block_data(b).span == pre.block_data(b).span
    }

    /// Every block of `pre` still exists and is unchanged.
    pub open spec fn blocks_retained(self, pre: Function) -> bool {
        &&& pre.blocks@.len() <= self.blocks@.len()
        &&& forall|b: Block| pre.valid_block(b) ==> #[trigger] self.same_block_shape(pre, b)
    }

    /// Every value of `pre` still exists with its kind, and every block
    /// keeps its self-reference value.
    pub open spec fn values_retained(self, pre: Function) -> bool {
        &&& pre.values@.len() <= self.values@.len()
        &&& forall|v: Value| pre.valid_value(v) ==> #[trigger] self.kind_of(v) == pre.kind_of(v)
        &&& forall|b: Block|
            pre.valid_block(b) ==> #[trigger] self.block_value_of(b) == pre.block_value_of(b)
    }

    /// Function references, containers and the entry block are kept.
    pub open spec fn misc_retained(self, pre: Function) -> bool {
        &&& self.ident == pre.ident
        &&& pre.fun_refs@.len() <= self.fun_refs@.len()
        &&& forall|f: FunRef|
            pre.valid_fun_ref(f) ==> #[trigger] self.fun_refs@[f.0 as int]
                == pre.fun_refs@[f.0 as int]
        &&& pre.constant_container.data@.len() <= self.constant_container.data@.len()
        &&& forall|c: crate::constant::Const|
            pre.constant_container.valid_const(c) ==> #[trigger] self.constant_container.term_of(c)
                == pre.constant_container.term_of(c)
        &&& pre.pattern_container.clauses@.len() <= self.pattern_container.clauses@.len()
        &&& forall|c: crate::pattern::PatternClause|
            pre.pattern_container.valid_clause(c)
                ==> #[trigger] self.pattern_container.clause_pattern(c)
                == pre.pattern_container.clause_pattern(c) && self.pattern_container.clause_binds(c)
                == pre.pattern_container.clause_binds(c)
        &&& self.entry_block == pre.entry_block
        &&& self.ident == pre.ident
    }

    /// All three at once: what every monotone builder step guarantees.
    pub open spec fn retained(self, pre: Function) -> bool {
        self.blocks_retained(pre) && self.values_retained(pre) && self.misc_retained(pre)
    }

    /// Transfer of the edge invariants: when every block of `pre` keeps
    /// its reads, successors and predecessors, and every value of `pre`
    /// keeps its kind, the edge invariants carry over to those blocks.
    proof fn lemma_edges_transfer(pre: Function, post: Function)
        requires
            pre.wf(),
            pre.graph_wf(),
            pre.blocks@.len() <= post.blocks@.len(),
            pre.values@.len() <= post.values@.len(),
            forall|b: Block|
                pre.valid_block(b) ==> #[trigger] post.reads_seq(b) == pre.reads_seq(b),
            forall|b: Block|
                pre.valid_block(b) ==> #[trigger] post.succs_seq(b) == pre.succs_seq(b),
            forall|b: Block|
                pre.valid_block(b) ==> #[trigger] post.preds_seq(b) == pre.preds_seq(b),
            forall|v: Value| pre.valid_value(v) ==> #[trigger] post.kind_of(v) == pre.kind_of(v),
        ensures
            forall|b: Block| pre.valid_block(b) ==> #[trigger] post.edges_wf(b),
    {
        assert forall|b2: Block| pre.valid_block(b2) implies #[trigger] post.edges_wf(b2) by {
            assert(pre.edges_wf(b2));
            assert(pre.block_wf(b2));
            assert(post.reads_seq(b2) == pre.reads_seq(b2));
            assert(post.succs_seq(b2) == pre.succs_seq(b2));
            assert(post.preds_seq(b2) == pre.preds_seq(b2));
            assert forall|i: int|
                0 <= i < post.reads_seq(b2).len() implies match post.kind_of(
                #[trigger] post.reads_seq(b2)[i],
            ) {
                ValueType::Block(s) => post.succs_seq(b2).contains(s),
                _ => true,
            } by {
                assert(post.reads_seq(b2)[i] == pre.reads_seq(b2)[i]);
                assert(pre.valid_value(pre.reads_seq(b2)[i]));
                assert(post.kind_of(pre.reads_seq(b2)[i]) == pre.kind_of(pre.reads_seq(b2)[i]));
                match pre.kind_of(pre.reads_seq(b2)[i]) {
                    ValueType::Block(s) => {
                        assert(pre.succs_seq(b2).contains(s));
                        assert(post.succs_seq(b2).contains(s));
                    },
                    _ => {},
                }
            }
            assert forall|s: Block| #[trigger] post.succs_seq(b2).contains(s) implies post.is_block_read(
                b2,
                s,
            ) && post.preds_seq(s).contains(b2) by {
                assert(pre.succs_seq(b2).contains(s));
                assert(pre.is_block_read(b2, s));
                assert(pre.valid_block(s));
                let i = choose|i: int|
                    0 <= i < pre.reads_seq(b2).len() && pre.kind_of(#[trigger] pre.reads_seq(b2)[i])
                        == ValueType::Block(s);
                assert(pre.valid_value(pre.reads_seq(b2)[i]));
                assert(post.kind_of(post.reads_seq(b2)[i]) == ValueType::Block(s));
                assert(pre.preds_seq(s).contains(b2));
                assert(post.preds_seq(s) == pre.preds_seq(s));
            }
            assert forall|p: Block| #[trigger] post.preds_seq(b2).contains(p) implies post.succs_seq(
                p,
            ).contains(b2) by {
                assert(pre.preds_seq(b2).contains(p));
                assert(pre.valid_block(p));
                assert(pre.succs_seq(p).contains(b2));
                assert(post.succs_seq(p) == pre.succs_seq(p));
            }
        }
    }

    /// Transfer of one block's handle well-formedness when its shape and
    /// every value kind are unchanged and the pools only grew.
    proof fn lemma_block_wf_transfer(pre: Function, post: Function, b2: Block)
        requires
            pre.wf(),
            pre.valid_block(b2),
            post.valid_block(b2),
            post.blocks@.len() >= pre.blocks@.len(),
            post.values@.len() >= pre.values@.len(),
            post.block_data(b2) == pre.block_data(b2),
            post.args_seq(b2) == pre.args_seq(b2),
            post.reads_seq(b2) == pre.reads_seq(b2),
            post.succs_seq(b2) == pre.succs_seq(b2),
            post.preds_seq(b2) == pre.preds_seq(b2),
            forall|v: Value| pre.valid_value(v) ==> #[trigger] post.kind_of(v) == pre.kind_of(v),
            pre.clause_pool.data@.len() <= post.clause_pool.data@.len(),
            post.clause_pool.data@.subrange(0, pre.clause_pool.data@.len() as int)
                == pre.clause_pool.data@,
            pre.pattern_container.clauses@.len() <= post.pattern_container.clauses@.len(),
            pre.value_pool.data@.len() <= post.value_pool.data@.len(),
            pre.fun_refs@.len() <= post.fun_refs@.len(),
        ensures
            post.block_wf(b2),
    {
        assert(pre.block_wf(b2));
        assert(post.value_pool.list_wf(post.block_data(b2).arguments));
        assert(post.value_pool.list_wf(post.block_data(b2).reads));
        assert forall|i: int| 0 <= i < post.args_seq(b2).len() implies post.valid_value(
            #[trigger] post.args_seq(b2)[i],
        ) && post.kind_of(post.args_seq(b2)[i]) == ValueType::Arg(b2) by {
            assert(pre.args_seq(b2)[i] == post.args_seq(b2)[i]);
            assert(pre.valid_value(pre.args_seq(b2)[i]));
            assert(pre.kind_of(pre.args_seq(b2)[i]) == ValueType::Arg(b2));
        }
        assert forall|i: int| 0 <= i < post.reads_seq(b2).len() implies post.valid_value(
            #[trigger] post.reads_seq(b2)[i],
        ) by {
            assert(pre.reads_seq(b2)[i] == post.reads_seq(b2)[i]);
            assert(pre.valid_value(pre.reads_seq(b2)[i]));
        }
        assert forall|i: int| 0 <= i < post.succs_seq(b2).len() implies post.valid_block(
            #[trigger] post.succs_seq(b2)[i],
        ) by {
            assert(pre.succs_seq(b2)[i] == post.succs_seq(b2)[i]);
            assert(pre.valid_block(pre.succs_seq(b2)[i]));
        }
        assert forall|i: int| 0 <= i < post.preds_seq(b2).len() implies post.valid_block(
            #[trigger] post.preds_seq(b2)[i],
        ) by {
            assert(pre.preds_seq(b2)[i] == post.preds_seq(b2)[i]);
            assert(pre.valid_block(pre.preds_seq(b2)[i]));
        }
        assert(post.op_payload_wf(b2)) by {
            assert(pre.op_payload_wf(b2));
            match post.block_data(b2).op {
                Some(crate::op::OpKind::Case { clauses }) => {
                    post.clause_pool.lemma_extends_preserves(pre.clause_pool, clauses);
                    assert forall|i: int|
                        0 <= i < post.clause_pool.list_view(clauses).len()
                            implies post.pattern_container.valid_clause(
                            #[trigger] post.clause_pool.list_view(clauses)[i],
                        ) by {
                        assert(pre.clause_pool.list_view(clauses)[i] == post.clause_pool.list_view(
                            clauses,
                        )[i]);
                        assert(pre.pattern_container.valid_clause(
                            pre.clause_pool.list_view(clauses)[i],
                        ));
                    }
                },
                _ => {},
            }
        }
    }

    /// When neither the pools nor the block or value tables changed,
    /// well-formedness and the edge invariants carry over.
    proof fn lemma_same_structure(pre: Function, post: Function)
        requires
            pre.wf(),
            pre.graph_wf(),
            post.blocks@ == pre.blocks@,
            post.values@ == pre.values@,
            post.value_pool == pre.value_pool,
            post.clause_pool == pre.clause_pool,
            post.block_set_pool == pre.block_set_pool,
            post.block_values@ == pre.block_values@,
            post.constant_values@ == pre.constant_values@,
            pre.constant_container.data@.len() <= post.constant_container.data@.len(),
            pre.fun_refs@.len() <= post.fun_refs@.len(),
            post.pattern_container == pre.pattern_container,
            post.constant_container.wf(),
            match post.entry_block {
                Some(b) => post.valid_block(b),
                None => true,
            },
        ensures
            post.wf(),
            post.graph_wf(),
            post.blocks_retained(pre),
            post.values_retained(pre),
    {
        assert forall|b2: Block|
            #![trigger post.same_block_shape(pre, b2)]
            #![trigger post.reads_seq(b2)]
            #![trigger post.succs_seq(b2)]
            #![trigger post.preds_seq(b2)]
            #![trigger post.args_seq(b2)]
            pre.valid_block(b2) implies post.same_block_shape(pre, b2) && post.reads_seq(b2)
            == pre.reads_seq(b2) && post.succs_seq(b2) == pre.succs_seq(b2) && post.preds_seq(b2)
            == pre.preds_seq(b2) && post.args_seq(b2) == pre.args_seq(b2) && post.block_data(b2)
            == pre.block_data(b2) by {
            assert(pre.block_wf(b2));
            assert(post.block_data(b2) == pre.block_data(b2));
        }
        assert forall|v2: Value| pre.valid_value(v2) implies #[trigger] post.kind_of(v2)
            == pre.kind_of(v2) by {}
        assert forall|b2: Block| post.valid_block(b2) implies #[trigger] post.block_wf(b2) by {
            assert(pre.block_wf(b2));
            assert(post.block_data(b2) == pre.block_data(b2));
            assert(post.clause_pool.data@.subrange(0, pre.clause_pool.data@.len() as int)
                =~= pre.clause_pool.data@);
            Self::lemma_block_wf_transfer(pre, post, b2);
        }
        assert forall|v2: Value| post.valid_value(v2) implies #[trigger] post.value_wf(v2) by {
            assert(pre.value_wf(v2));
        }
        Self::lemma_edges_transfer(pre, post);
        assert forall|b: Block| post.valid_block(b) implies post.valid_value(
            #[trigger] post.block_value_of(b),
        ) && post.kind_of(post.block_value_of(b)) == ValueType::Block(b) by {
            assert(pre.block_value_of(b) == post.block_value_of(b));
            assert(pre.valid_value(pre.block_value_of(b)));
            assert(pre.kind_of(pre.block_value_of(b)) == ValueType::Block(b));
        }
        assert(post.block_values_wf());
        assert(post.const_cache_wf()) by {
            assert forall|i: int| 0 <= i < post.constant_values@.len() implies post.valid_value(
                #[trigger] post.constant_values@[i],
            ) && post.kind_of(post.constant_values@[i]) is Constant by {
                assert(pre.constant_values@[i] == post.constant_values@[i]);
                assert(pre.valid_value(pre.constant_values@[i]));
                assert(pre.kind_of(pre.constant_values@[i]) is Constant);
            }
        }
        assert(post.pattern_container.wf());
    }

    /// Allocate a new block and its self-reference value.
    pub fn block_insert(&mut self) -> (r: Block)
        requires
            old(self).wf(),
            old(self).graph_wf(),
        ensures
            final(self).wf(),
            final(self).graph_wf(),
            final(self).retained(*old(self)),
            r.0 == old(self).blocks@.len(),
            final(self).blocks@.len() == old(self).blocks@.len() + 1,
            final(self).values@.len() == old(self).values@.len() + 1,
            final(self).valid_block(r),
            final(self).args_seq(r).len() == 0,
            final(self).reads_seq(r).len() == 0,
            final(self).succs_seq(r).len() == 0,
            final(self).preds_seq(r).len() == 0,
            final(self).op_of(r) is None,
            final(self).kind_of(final(self).block_value_of(r)) == ValueType::Block(r),
            final(self).block_value_of(r).0 == old(self).values@.len(),
            final(self).constant_values@ == old(self).constant_values@,
            final(self).value_pool == old(self).value_pool,
    {
        let b = Block(self.blocks.len());
        let (preds, succs) = self.block_set_pool.new_set_pair();
        self.blocks.push(
            BlockData {
                arguments: ListHandle::new(),
                op: None,
                reads: ListHandle::new(),
                span: Span::dummy(),
                predecessors: preds,
                successors: succs,
            },
        );
        let v = Value(self.values.len());
        self.values.push(ValueData { kind: ValueType::Block(b), span: Span::dummy() });
        self.block_values.push(v);
        proof {
            let pre = *old(self);
            let post = *self;
            assert forall|b2: Block|
                #![trigger post.same_block_shape(pre, b2)]
                #![trigger post.reads_seq(b2)]
                #![trigger post.succs_seq(b2)]
                #![trigger post.preds_seq(b2)]
                #![trigger post.args_seq(b2)]
                pre.valid_block(b2) implies post.same_block_shape(pre, b2) && post.block_data(b2)
                == pre.block_data(b2) && post.reads_seq(b2) == pre.reads_seq(b2) && post.succs_seq(
                b2,
            ) == pre.succs_seq(b2) && post.preds_seq(b2) == pre.preds_seq(b2) && post.args_seq(b2)
                == pre.args_seq(b2) by {
                assert(pre.block_wf(b2));
                assert(post.block_data(b2) == pre.block_data(b2));
                assert(pre.block_set_pool.set_wf(pre.block_data(b2).predecessors));
                assert(pre.block_set_pool.set_wf(pre.block_data(b2).successors));
            }
            assert forall|v2: Value| pre.valid_value(v2) implies #[trigger] post.kind_of(v2)
                == pre.kind_of(v2) by {}
            assert forall|b2: Block| post.valid_block(b2) implies #[trigger] post.block_wf(b2) by {
                if b2.0 < pre.blocks@.len() {
                    assert(post.clause_pool.data@.subrange(0, pre.clause_pool.data@.len() as int)
                        =~= pre.clause_pool.data@);
                    Self::lemma_block_wf_transfer(pre, post, b2);
                } else {
                    assert(b2 == b);
                    assert(post.args_seq(b2).len() == 0);
                    assert(post.reads_seq(b2).len() == 0);
                    assert(post.succs_seq(b2).len() == 0);
                    assert(post.preds_seq(b2).len() == 0);
                    assert(post.args_seq(b2).no_duplicates());
                }
            }
            assert forall|v2: Value| post.valid_value(v2) implies #[trigger] post.value_wf(v2) by {
                if v2.0 < pre.values@.len() {
                    assert(pre.value_wf(v2));
                    if pre.kind_of(v2) is Block {
                        let b3 = pre.kind_of(v2)->Block_0;
                        assert(post.block_value_of(b3) == pre.block_value_of(b3));
                    }
                } else {
                    assert(v2 == v);
                    assert(post.block_value_of(b) == v);
                }
            }
            Self::lemma_edges_transfer(pre, post);
            assert forall|b2: Block| post.valid_block(b2) implies #[trigger] post.edges_wf(b2) by {
                if b2.0 < pre.blocks@.len() {
                } else {
                    assert(b2 == b);
                    assert(post.succs_seq(b2).len() == 0);
                    assert(post.preds_seq(b2).len() == 0);
                    assert(post.reads_seq(b2).len() == 0);
                }
            }
            assert forall|b2: Block| post.valid_block(b2) implies post.valid_value(
                #[trigger] post.block_value_of(b2),
            ) && post.kind_of(post.block_value_of(b2)) == ValueType::Block(b2) by {
                if b2.0 < pre.blocks@.len() {
                    assert(pre.block_value_of(b2) == post.block_value_of(b2));
                    assert(pre.valid_value(pre.block_value_of(b2)));
                    assert(pre.kind_of(pre.block_value_of(b2)) == ValueType::Block(b2));
                } else {
                    assert(b2 == b);
                    assert(post.block_value_of(b) == v);
                }
            }
            assert(post.block_values_wf());
            assert(post.const_cache_wf()) by {
                assert forall|i: int| 0 <= i < post.constant_values@.len() implies post.valid_value(
                    #[trigger] post.constant_values@[i],
                ) && post.kind_of(post.constant_values@[i]) is Constant by {
                    assert(pre.constant_values@[i] == post.constant_values@[i]);
                    assert(pre.valid_value(pre.constant_values@[i]));
                    assert(pre.kind_of(pre.constant_values@[i]) is Constant);
                }
                assert forall|v1: Value, v2: Value|
                    post.valid_value(v1) && post.valid_value(v2) && #[trigger] post.kind_of(v1)
                        == #[trigger] post.kind_of(v2) && post.kind_of(v1) is Constant implies v1
                    == v2 by {
                    assert(v1.0 < pre.values@.len() ==> pre.kind_of(v1) == post.kind_of(v1));
                    assert(v2.0 < pre.values@.len() ==> pre.kind_of(v2) == post.kind_of(v2));
                    assert(post.kind_of(v) == ValueType::Block(b));
                }
            }
        }
        b
    }

    /// Append a fresh argument value to a block's parameter list.
    pub fn block_arg_insert(&mut self, block: Block) -> (r: Value)
        requires
            old(self).wf(),
            old(self).graph_wf(),
            old(self).valid_block(block),
        ensures
            final(self).wf(),
            final(self).graph_wf(),
            final(self).values_retained(*old(self)),
            final(self).misc_retained(*old(self)),
            final(self).blocks@.len() == old(self).blocks@.len(),
            forall|b: Block|
                old(self).valid_block(b) && b != block ==> #[trigger] final(self).same_block_shape(
                    *old(self),
                    b,
                ),
            final(self).args_seq(block) == old(self).args_seq(block).push(r),
            final(self).reads_seq(block) == old(self).reads_seq(block),
            final(self).succs_seq(block) == old(self).succs_seq(block),
            final(self).preds_seq(block) == old(self).preds_seq(block),
            final(self).op_of(block) == old(self).op_of(block),
            final(self).block_data(block).span == old(self).block_data(block).span,
            r.0 == old(self).values@.len(),
            final(self).values@.len() == old(self).values@.len() + 1,
            final(self).kind_of(r) == ValueType::Arg(block),
            final(self).constant_values@ == old(self).constant_values@,
    {
        let v = Value(self.values.len());
        self.values.push(ValueData { kind: ValueType::Arg(block), span: Span::dummy() });
        proof {
            assert(old(self).block_wf(block));
        }
        let args = self.blocks[block.0].arguments;
        let new_args = self.value_pool.push(args, v);
        self.blocks[block.0].arguments = new_args;
        proof {
            let pre = *old(self);
            let post = *self;
            assert(post.value_pool.extends(pre.value_pool));
            // uniform facts about every surviving block
            assert forall|b2: Block|
                #![trigger post.reads_seq(b2)]
                #![trigger post.succs_seq(b2)]
                #![trigger post.preds_seq(b2)]
                #![trigger post.args_seq(b2)]
                #![trigger post.same_block_shape(pre, b2)]
                pre.valid_block(b2) implies post.reads_seq(b2) == pre.reads_seq(b2)
                && post.succs_seq(b2) == pre.succs_seq(b2) && post.preds_seq(b2) == pre.preds_seq(
                b2,
            ) && post.op_of(b2) == pre.op_of(b2) && (b2 != block ==> post.args_seq(b2)
                == pre.args_seq(b2) && post.block_data(b2) == pre.block_data(b2)) by {
                assert(pre.block_wf(b2));
                if b2 != block {
                    assert(post.block_data(b2) == pre.block_data(b2));
                    post.value_pool.lemma_extends_preserves(
                        pre.value_pool,
                        pre.block_data(b2).arguments,
                    );
                    post.value_pool.lemma_extends_preserves(
                        pre.value_pool,
                        pre.block_data(b2).reads,
                    );
                } else {
                    assert(post.block_data(b2).reads == pre.block_data(b2).reads);
                    assert(post.block_data(b2).successors == pre.block_data(b2).successors);
                    assert(post.block_data(b2).predecessors == pre.block_data(b2).predecessors);
                    assert(post.block_data(b2).op == pre.block_data(b2).op);
                    post.value_pool.lemma_extends_preserves(
                        pre.value_pool,
                        pre.block_data(b2).reads,
                    );
                }
            }
            assert forall|v2: Value| pre.valid_value(v2) implies #[trigger] post.kind_of(v2)
                == pre.kind_of(v2) by {}
            assert(post.args_seq(block) == pre.args_seq(block).push(v));
            assert forall|b2: Block|
                pre.valid_block(b2) && b2 != block implies #[trigger] post.same_block_shape(
                pre,
                b2,
            ) by {
                assert(post.block_data(b2) == pre.block_data(b2));
            }
            assert forall|b2: Block| post.valid_block(b2) implies #[trigger] post.block_wf(b2) by {
                assert(pre.block_wf(b2));
                if b2 != block {
                    assert(post.clause_pool.data@.subrange(0, pre.clause_pool.data@.len() as int)
                        =~= pre.clause_pool.data@);
                    Self::lemma_block_wf_transfer(pre, post, b2);
                } else {
                    assert(post.value_pool.list_wf(post.block_data(b2).reads)) by {
                        post.value_pool.lemma_extends_preserves(
                            pre.value_pool,
                            pre.block_data(b2).reads,
                        );
                    }
                    assert forall|i: int| 0 <= i < post.args_seq(b2).len() implies post.valid_value(
                        #[trigger] post.args_seq(b2)[i],
                    ) && post.kind_of(post.args_seq(b2)[i]) == ValueType::Arg(b2) by {
                        if i < pre.args_seq(b2).len() {
                            assert(pre.args_seq(b2)[i] == post.args_seq(b2)[i]);
                            assert(pre.valid_value(pre.args_seq(b2)[i]));
                            assert(pre.kind_of(pre.args_seq(b2)[i]) == ValueType::Arg(b2));
                        } else {
                            assert(post.args_seq(b2)[i] == v);
                        }
                    }
                    assert forall|i: int| 0 <= i < post.reads_seq(b2).len() implies post.valid_value(
                        #[trigger] post.reads_seq(b2)[i],
                    ) by {
                        assert(pre.reads_seq(b2)[i] == post.reads_seq(b2)[i]);
                        assert(pre.valid_value(pre.reads_seq(b2)[i]));
                    }
                    assert forall|i: int| 0 <= i < post.succs_seq(b2).len() implies post.valid_block(
                        #[trigger] post.succs_seq(b2)[i],
                    ) by {
                        assert(pre.succs_seq(b2)[i] == post.succs_seq(b2)[i]);
                        assert(pre.valid_block(pre.succs_seq(b2)[i]));
                    }
                    assert forall|i: int| 0 <= i < post.preds_seq(b2).len() implies post.valid_block(
                        #[trigger] post.preds_seq(b2)[i],
                    ) by {
                        assert(pre.preds_seq(b2)[i] == post.preds_seq(b2)[i]);
                        assert(pre.valid_block(pre.preds_seq(b2)[i]));
                    }
                    assert(post.op_payload_wf(b2)) by {
                        assert(pre.op_payload_wf(b2));
                        match post.block_data(b2).op {
                            Some(crate::op::OpKind::Case { clauses }) => {
                                assert forall|i: int|
                                    0 <= i < post.clause_pool.list_view(clauses).len()
                                        implies post.pattern_container.valid_clause(
                                        #[trigger] post.clause_pool.list_view(clauses)[i],
                                    ) by {
                                    assert(pre.clause_pool.list_view(clauses)[i]
                                        == post.clause_pool.list_view(clauses)[i]);
                                    assert(pre.pattern_container.valid_clause(
                                        pre.clause_pool.list_view(clauses)[i],
                                    ));
                                }
                            },
                            _ => {},
                        }
                    }
                    assert(post.args_seq(b2).no_duplicates()) by {
                        let s = post.args_seq(b2);
                        assert forall|i: int, j: int|
                            0 <= i < s.len() && 0 <= j < s.len() && i != j implies s[i] != s[j] by {
                            assert(pre.args_seq(b2).no_duplicates());
                            if i < pre.args_seq(b2).len() && j < pre.args_seq(b2).len() {
                                assert(s[i] == pre.args_seq(b2)[i]);
                                assert(s[j] == pre.args_seq(b2)[j]);
                            } else if j < pre.args_seq(b2).len() {
                                assert(s[i] == v);
                                assert(pre.valid_value(s[j]));
                            } else {
                                assert(s[j] == v);
                                assert(pre.valid_value(s[i]));
                            }
                        }
                    }
                }
            }
            assert forall|v2: Value| post.valid_value(v2) implies #[trigger] post.value_wf(v2) by {
                if v2.0 < pre.values@.len() {
                    assert(pre.value_wf(v2));
                } else {
                    assert(v2 == v);
                }
            }
            Self::lemma_edges_transfer(pre, post);
            assert forall|b2: Block| post.valid_block(b2) implies #[trigger] post.edges_wf(b2) by {}
            assert forall|b2: Block| post.valid_block(b2) implies post.valid_value(
                #[trigger] post.block_value_of(b2),
            ) && post.kind_of(post.block_value_of(b2)) == ValueType::Block(b2) by {
                assert(pre.block_value_of(b2) == post.block_value_of(b2));
                assert(pre.valid_value(pre.block_value_of(b2)));
                assert(pre.kind_of(pre.block_value_of(b2)) == ValueType::Block(b2));
            }
            assert(post.block_values_wf());
            assert(post.const_cache_wf()) by {
                assert forall|i: int| 0 <= i < post.constant_values@.len() implies post.valid_value(
                    #[trigger] post.constant_values@[i],
                ) && post.kind_of(post.constant_values@[i]) is Constant by {
                    assert(pre.constant_values@[i] == post.constant_values@[i]);
                    assert(pre.valid_value(pre.constant_values@[i]));
                    assert(pre.kind_of(pre.constant_values@[i]) is Constant);
                }
                assert forall|v1: Value, v2: Value|
                    post.valid_value(v1) && post.valid_value(v2) && #[trigger] post.kind_of(v1)
                        == #[trigger] post.kind_of(v2) && post.kind_of(v1) is Constant implies v1
                    == v2 by {
                    assert(v1.0 < pre.values@.len() ==> pre.kind_of(v1) == post.kind_of(v1));
                    assert(v2.0 < pre.values@.len() ==> pre.kind_of(v2) == post.kind_of(v2));
                    assert(post.kind_of(v) == ValueType::Arg(block));
                }
            }
        }
        v
    }

    /// Designate the entry block.
    pub fn block_set_entry(&mut self, block: Block)
        requires
            old(self).wf(),
            old(self).graph_wf(),
            old(self).valid_block(block),
        ensures
            final(self).wf(),
            final(self).graph_wf(),
            final(self).blocks_retained(*old(self)),
            final(self).values_retained(*old(self)),
            final(self).entry_block == Some(block),
            *final(self) == (Function { entry_block: Some(block), ..*old(self) }),
    {
        self.entry_block = Some(block);
        proof {
            Self::lemma_same_structure(*old(self), *self);
        }
    }

    /// Intern a function reference.
    pub fn fun_ref_insert(&mut self, ident: FunctionIdent) -> (r: FunRef)
        requires
            old(self).wf(),
            old(self).graph_wf(),
        ensures
            final(self).wf(),
            final(self).graph_wf(),
            final(self).retained(*old(self)),
            r.0 == old(self).fun_refs@.len(),
            final(self).fun_refs@.len() == old(self).fun_refs@.len() + 1,
            final(self).valid_fun_ref(r),
            final(self).fun_refs@[r.0 as int] == ident,
            final(self).blocks@.len() == old(self).blocks@.len(),
            final(self).values@.len() == old(self).values@.len(),
            final(self).value_pool == old(self).value_pool,
            final(self).constant_values@ == old(self).constant_values@,
    {
        let r = FunRef(self.fun_refs.len());
        self.fun_refs.push(ident);
        proof {
            Self::lemma_same_structure(*old(self), *self);
        }
        r
    }

    /// Get or create the value of a constant literal. Two equal literals
    /// always yield the same value handle.
    pub fn value_const(&mut self, term: AtomicTerm) -> (r: Value)
        requires
            old(self).wf(),
            old(self).graph_wf(),
        ensures
            final(self).wf(),
            final(self).graph_wf(),
            final(self).blocks_retained(*old(self)),
            final(self).values_retained(*old(self)),
            final(self).misc_retained(*old(self)),
            final(self).blocks@.len() == old(self).blocks@.len(),
            final(self).valid_value(r),
            final(self).kind_of(r) is Constant,
            (match final(self).kind_of(r) {
                ValueType::Constant(c) => final(self).constant_container.term_of(c).term_eq(term),
                _ => false,
            }),
            // interning: an equal pre-existing constant value is returned
            forall|v: Value, c: crate::constant::Const|
                #![trigger old(self).kind_of(v), old(self).constant_container.term_of(c)]
                old(self).valid_value(v) && old(self).kind_of(v) == ValueType::Constant(c) && old(
                    self,
                ).constant_container.term_of(c).term_eq(term) ==> r == v,
            final(self).value_pool == old(self).value_pool,
    {
        let c = self.constant_container.intern(term);
        // look for an existing value of this constant
        let n = self.constant_values.len();
        let mut i: usize = 0;
        while i < n
            invariant
                old(self).wf(),
                old(self).graph_wf(),
                n == self.constant_values@.len(),
                i <= n,
                *self == (Function { constant_container: self.constant_container, ..*old(self) }),
                self.constant_container.wf(),
                old(self).constant_container.data@.len() <= self.constant_container.data@.len(),
                forall|c2: crate::constant::Const|
                    old(self).constant_container.valid_const(c2)
                        ==> #[trigger] self.constant_container.term_of(c2) == old(
                        self,
                    ).constant_container.term_of(c2),
                self.constant_container.valid_const(c),
                self.constant_container.term_of(c).term_eq(term),
                forall|c2: crate::constant::Const|
                    old(self).constant_container.valid_const(c2) && old(
                        self,
                    ).constant_container.term_of(c2).term_eq(term) ==> c == c2,
                forall|j: int|
                    0 <= j < i ==> self.kind_of(#[trigger] self.constant_values@[j])
                        != ValueType::Constant(c),
            decreases n - i,
        {
            let cv = self.constant_values[i];
            proof {
                assert(old(self).const_cache_wf());
                assert(old(self).valid_value(cv));
            }
            match self.values[cv.0].kind {
                ValueType::Constant(c2) => {
                    if c2.0 == c.0 {
                        proof {
                            let pre = *old(self);
                            let post = *self;
                            assert(pre.value_wf(cv));
                            Self::lemma_same_structure(pre, post);
                            assert forall|v: Value, c3: crate::constant::Const|
                                #![trigger pre.kind_of(v), pre.constant_container.term_of(c3)]
                                pre.valid_value(v) && pre.kind_of(v) == ValueType::Constant(c3)
                                    && pre.constant_container.term_of(c3).term_eq(term) implies cv
                                == v by {
                                assert(pre.value_wf(v));
                                assert(c3 == c);
                                assert(pre.kind_of(v) == pre.kind_of(cv));
                            }
                        }
                        return cv;
                    }
                },
                _ => {
                    proof {
                        assert(false);
                    }
                },
            }
            i = i + 1;
        }
        // no existing value: create one
        let v = Value(self.values.len());
        self.values.push(ValueData { kind: ValueType::Constant(c), span: Span::dummy() });
        self.constant_values.push(v);
        proof {
            let pre = *old(self);
            let post = *self;
            assert forall|b2: Block|
                #![trigger post.same_block_shape(pre, b2)]
                #![trigger post.reads_seq(b2)]
                #![trigger post.succs_seq(b2)]
                #![trigger post.preds_seq(b2)]
                #![trigger post.args_seq(b2)]
                pre.valid_block(b2) implies post.same_block_shape(pre, b2) && post.block_data(b2)
                == pre.block_data(b2) && post.reads_seq(b2) == pre.reads_seq(b2) && post.succs_seq(
                b2,
            ) == pre.succs_seq(b2) && post.preds_seq(b2) == pre.preds_seq(b2) && post.args_seq(b2)
                == pre.args_seq(b2) by {
                assert(pre.block_wf(b2));
                assert(post.block_data(b2) == pre.block_data(b2));
            }
            assert forall|v2: Value| pre.valid_value(v2) implies #[trigger] post.kind_of(v2)
                == pre.kind_of(v2) by {}
            assert forall|b2: Block| post.valid_block(b2) implies #[trigger] post.block_wf(b2) by {
                assert(post.clause_pool.data@.subrange(0, pre.clause_pool.data@.len() as int)
                    =~= pre.clause_pool.data@);
                Self::lemma_block_wf_transfer(pre, post, b2);
            }
            // no pre-existing value held this constant
            assert(pre.const_cache_wf());
            assert forall|j: int| 0 <= j < pre.constant_values@.len() implies pre.kind_of(
                #[trigger] pre.constant_values@[j],
            ) != ValueType::Constant(c) by {
                assert(pre.valid_value(pre.constant_values@[j]));
            }
            assert forall|v2: Value| post.valid_value(v2) implies #[trigger] post.value_wf(v2) by {
                if v2.0 < pre.values@.len() {
                    assert(pre.value_wf(v2));
                    assert(post.constant_values@ == pre.constant_values@.push(v));
                    if pre.kind_of(v2) is Constant {
                        assert(pre.constant_values@.contains(v2));
                        let k = choose|k: int|
                            0 <= k < pre.constant_values@.len() && pre.constant_values@[k] == v2;
                        assert(post.constant_values@[k] == v2);
                    }
                } else {
                    assert(v2 == v);
                    assert(post.constant_values@[post.constant_values@.len() - 1] == v);
                }
            }
            assert(post.constant_values@.no_duplicates()) by {
                let s = post.constant_values@;
                assert forall|a: int, b: int|
                    0 <= a < s.len() && 0 <= b < s.len() && a != b implies s[a] != s[b] by {
                    assert(pre.constant_values@.no_duplicates());
                    if a < pre.constant_values@.len() && b < pre.constant_values@.len() {
                        assert(s[a] == pre.constant_values@[a]);
                        assert(s[b] == pre.constant_values@[b]);
                    } else if b < pre.constant_values@.len() {
                        assert(s[a] == v);
                        assert(pre.valid_value(s[b]));
                    } else {
                        assert(s[b] == v);
                        assert(pre.valid_value(s[a]));
                    }
                }
            }
            assert(post.const_cache_wf()) by {
                assert forall|i2: int| 0 <= i2 < post.constant_values@.len() implies post.valid_value(
                    #[trigger] post.constant_values@[i2],
                ) && post.kind_of(post.constant_values@[i2]) is Constant by {
                    if i2 < pre.constant_values@.len() {
                        assert(pre.constant_values@[i2] == post.constant_values@[i2]);
                        assert(pre.valid_value(pre.constant_values@[i2]));
                        assert(pre.kind_of(pre.constant_values@[i2]) is Constant);
                    } else {
                        assert(post.constant_values@[i2] == v);
                    }
                }
                assert forall|v1: Value, v2: Value|
                    post.valid_value(v1) && post.valid_value(v2) && #[trigger] post.kind_of(v1)
                        == #[trigger] post.kind_of(v2) && post.kind_of(v1) is Constant implies v1
                    == v2 by {
                    if v1.0 < pre.values@.len() && v2.0 < pre.values@.len() {
                        assert(pre.kind_of(v1) == post.kind_of(v1));
                        assert(pre.kind_of(v2) == post.kind_of(v2));
                    } else if v1.0 < pre.values@.len() {
                        assert(v2 == v);
                        assert(pre.kind_of(v1) == ValueType::Constant(c));
                        assert(pre.value_wf(v1));
                        assert(pre.constant_values@.contains(v1));
                        let k = choose|k: int|
                            0 <= k < pre.constant_values@.len() && pre.constant_values@[k] == v1;
                        assert(pre.kind_of(pre.constant_values@[k]) != ValueType::Constant(c));
                    } else if v2.0 < pre.values@.len() {
                        assert(v1 == v);
                        assert(pre.kind_of(v2) == ValueType::Constant(c));
                        assert(pre.value_wf(v2));
                        assert(pre.constant_values@.contains(v2));
                        let k = choose|k: int|
                            0 <= k < pre.constant_values@.len() && pre.constant_values@[k] == v2;
                        assert(pre.kind_of(pre.constant_values@[k]) != ValueType::Constant(c));
                    }
                }
            }
            Self::lemma_edges_transfer(pre, post);
            assert forall|b2: Block| post.valid_block(b2) implies #[trigger] post.edges_wf(b2) by {}
            assert forall|b2: Block| post.valid_block(b2) implies post.valid_value(
                #[trigger] post.block_value_of(b2),
            ) && post.kind_of(post.block_value_of(b2)) == ValueType::Block(b2) by {
                assert(pre.block_value_of(b2) == post.block_value_of(b2));
                assert(pre.valid_value(pre.block_value_of(b2)));
                assert(pre.kind_of(pre.block_value_of(b2)) == ValueType::Block(b2));
            }
            assert(post.block_values_wf());
            // nothing before v matched the constant
            assert forall|v2: Value, c3: crate::constant::Const|
                #![trigger pre.kind_of(v2), pre.constant_container.term_of(c3)]
                pre.valid_value(v2) && pre.kind_of(v2) == ValueType::Constant(c3)
                    && pre.constant_container.term_of(c3).term_eq(term) implies v == v2 by {
                assert(pre.value_wf(v2));
                assert(c3 == c);
                assert(pre.constant_values@.contains(v2));
                let k = choose|k: int|
                    0 <= k < pre.constant_values@.len() && pre.constant_values@[k] == v2;
                assert(pre.kind_of(pre.constant_values@[k]) != ValueType::Constant(c));
            }
        }
        v
    }
}

impl Function {
    /// The blocks referenced by block-kind values of a read list, in
    /// first-occurrence order, each once.
    pub open spec fn block_targets(self, rs: Seq<Value>) -> Seq<Block>
        decreases rs.len(),
    {
        if rs.len() == 0 {
            Seq::empty()
        } else {
            let t = self.block_targets(rs.drop_last());
            match self.kind_of(rs.last()) {
                ValueType::Block(s) => if t.contains(s) {
                    t
                } else {
                    t.push(s)
                },
                _ => t,
            }
        }
    }

    /// The target list is duplicate-free and holds exactly the blocks
    /// read as block values.
    pub proof fn lemma_block_targets(self, rs: Seq<Value>)
        ensures
            self.block_targets(rs).no_duplicates(),
            forall|s: Block|
                #[trigger] self.block_targets(rs).contains(s) <==> exists|i: int|
                    0 <= i < rs.len() && self.kind_of(#[trigger] rs[i]) == ValueType::Block(s),
        decreases rs.len(),
    {
        if rs.len() == 0 {
        } else {
            self.lemma_block_targets(rs.drop_last());
            let t = self.block_targets(rs.drop_last());
            assert forall|s: Block| #[trigger] self.block_targets(rs).contains(s) implies exists|i: int|
                0 <= i < rs.len() && self.kind_of(#[trigger] rs[i]) == ValueType::Block(s) by {
                if t.contains(s) {
                    let i = choose|i: int|
                        0 <= i < rs.drop_last().len() && self.kind_of(
                            #[trigger] rs.drop_last()[i],
                        ) == ValueType::Block(s);
                    assert(rs[i] == rs.drop_last()[i]);
                    assert(self.kind_of(rs[i]) == ValueType::Block(s));
                } else {
                    assert(self.kind_of(rs.last()) == ValueType::Block(s));
                    assert(self.kind_of(rs[rs.len() - 1]) == ValueType::Block(s));
                }
            }
            assert forall|s: Block|
                (exists|i: int|
                    0 <= i < rs.len() && self.kind_of(#[trigger] rs[i]) == ValueType::Block(
                        s,
                    )) implies #[trigger] self.block_targets(rs).contains(s) by {
                let i = choose|i: int|
                    0 <= i < rs.len() && self.kind_of(#[trigger] rs[i]) == ValueType::Block(s);
                if i < rs.len() - 1 {
                    assert(rs.drop_last()[i] == rs[i]);
                    assert(t.contains(s));
                    if !(self.block_targets(rs) == t) {
                        assert(self.block_targets(rs).last() != s || true);
                    }
                    match self.kind_of(rs.last()) {
                        ValueType::Block(s2) => {
                            if t.contains(s2) {
                                assert(self.block_targets(rs) == t);
                            } else {
                                assert(self.block_targets(rs) == t.push(s2));
                                assert(t.push(s2)[t.index_of(s)] == s);
                                assert(self.block_targets(rs).contains(s));
                            }
                        },
                        _ => {},
                    }
                } else {
                    assert(self.kind_of(rs.last()) == ValueType::Block(s));
                    if t.contains(s) {
                    } else {
                        assert(self.block_targets(rs) == t.push(s));
                        assert(t.push(s).last() == s);
                    }
                }
            }
            assert(self.block_targets(rs).no_duplicates()) by {
                match self.kind_of(rs.last()) {
                    ValueType::Block(s2) => {
                        if !t.contains(s2) {
                            let u = t.push(s2);
                            assert forall|i: int, j: int|
                                0 <= i < u.len() && 0 <= j < u.len() && i != j implies u[i]
                                != u[j] by {
                                if i < t.len() && j < t.len() {
                                    assert(u[i] == t[i] && u[j] == t[j]);
                                } else if i < t.len() {
                                    assert(u[j] == s2 && u[i] == t[i]);
                                    assert(t.contains(t[i]));
                                } else {
                                    assert(u[i] == s2 && u[j] == t[j]);
                                    assert(t.contains(t[j]));
                                }
                            }
                        }
                    },
                    _ => {},
                }
            }
        }
    }

    /// Appending to a read list extends its targets on the right.
    pub proof fn lemma_block_targets_step(self, rs: Seq<Value>, i: int)
        requires
            0 <= i < rs.len(),
        ensures
            self.block_targets(rs.take(i + 1)) == (match self.kind_of(rs[i]) {
                ValueType::Block(s) => if self.block_targets(rs.take(i)).contains(s) {
                    self.block_targets(rs.take(i))
                } else {
                    self.block_targets(rs.take(i)).push(s)
                },
                _ => self.block_targets(rs.take(i)),
            }),
    {
        let a = rs.take(i + 1);
        assert(a.drop_last() =~= rs.take(i));
        assert(a.last() == rs[i]);
    }
}

/// Membership after removing one element from a duplicate-free sequence.
proof fn lemma_remove_value_membership(s: Seq<Block>, x: Block)
    requires
        s.no_duplicates(),
    ensures
        forall|y: Block|
            #[trigger] s.remove_value(x).contains(y) <==> (s.contains(y) && y != x),
        s.remove_value(x).no_duplicates(),
        s.remove_value(x).len() <= s.len(),
{
    s.index_of_first_ensures(x);
    let r = s.remove_value(x);
    match s.index_of_first(x) {
        Some(k) => {
            assert(r == s.remove(k));
            s.remove_ensures(k);
            assert forall|y: Block| #[trigger] r.contains(y) implies s.contains(y) && y != x by {
                let i = choose|i: int| 0 <= i < r.len() && r[i] == y;
                if i < k {
                    assert(s[i] == y);
                } else {
                    assert(s[i + 1] == y);
                }
            }
            assert forall|y: Block| s.contains(y) && y != x implies #[trigger] r.contains(y) by {
                let i = choose|i: int| 0 <= i < s.len() && s[i] == y;
                if i < k {
                    assert(r[i] == y);
                } else {
                    assert(i != k);
                    assert(r[i - 1] == s[i]);
                }
            }
            assert forall|i: int, j: int|
                0 <= i < r.len() && 0 <= j < r.len() && i != j implies r[i] != r[j] by {
                let i2: int = if i < k { i } else { i + 1 };
                let j2: int = if j < k { j } else { j + 1 };
                assert(r[i] == s[i2] && r[j] == s[j2]);
            }
        },
        None => {
            assert(!s.contains(x));
        },
    }
}

/// Whether a block is in the list.
fn vec_contains_block(v: &Vec<Block>, b: Block) -> (r: bool)
    ensures
        r == v@.contains(b),
{
    let n = v.len();
    let mut i: usize = 0;
    while i < n
        invariant
            n == v@.len(),
            i <= n,
            forall|j: int| 0 <= j < i ==> v@[j] != b,
        decreases n - i,
    {
        if v[i] == b {
            return true;
        }
        i = i + 1;
    }
    false
}

impl Function {
    /// What an op's payload must satisfy before it can be assigned.
    pub open spec fn op_payload_ok(self, op: crate::op::OpKind) -> bool {
        match op {
            crate::op::OpKind::Case { clauses } => self.clause_pool.list_wf(clauses) && forall|
                i: int,
            |
                0 <= i < self.clause_pool.list_view(clauses).len()
                    ==> self.pattern_container.valid_clause(
                    #[trigger] self.clause_pool.list_view(clauses)[i],
                ),
            crate::op::OpKind::CaptureFunction(f) => self.valid_fun_ref(f),
            crate::op::OpKind::BindClosure { fun, .. } => self.valid_fun_ref(fun),
            _ => true,
        }
    }

    /// How assigning an op to `block` with targets `tt` rewires the
    /// predecessor set of a block `b`: `block` is appended where an edge
    /// appears, removed where one disappears, kept in place otherwise.
    pub open spec fn preds_rewired(pre: Function, block: Block, tt: Seq<Block>, b: Block) -> Seq<
        Block,
    > {
        if tt.contains(b) && !pre.succs_seq(block).contains(b) {
            pre.preds_seq(b).push(block)
        } else if !tt.contains(b) && pre.succs_seq(block).contains(b) {
            pre.preds_seq(b).remove_value(block)
        } else {
            pre.preds_seq(b)
        }
    }

    /// Assign an op and its operand list to a block, atomically updating
    /// the successor set of the block and the predecessor set of every
    /// block whose edge appears or disappears.
    #[verifier::loop_isolation(false)]
    pub fn block_set_op(&mut self, block: Block, op: crate::op::OpKind, reads: &Vec<Value>)
        requires
            old(self).wf(),
            old(self).graph_wf(),
            old(self).valid_block(block),
            forall|i: int| 0 <= i < reads@.len() ==> old(self).valid_value(#[trigger] reads@[i]),
            old(self).op_payload_ok(op),
        ensures
            final(self).wf(),
            final(self).graph_wf(),
            final(self).values_retained(*old(self)),
            final(self).misc_retained(*old(self)),
            final(self).blocks@.len() == old(self).blocks@.len(),
            final(self).values@ == old(self).values@,
            final(self).block_values@ == old(self).block_values@,
            final(self).constant_values@ == old(self).constant_values@,
            final(self).op_of(block) == Some(op),
            final(self).reads_seq(block) == reads@,
            final(self).succs_seq(block) == old(self).block_targets(reads@),
            final(self).args_seq(block) == old(self).args_seq(block),
            forall|b: Block|
                old(self).valid_block(b) && b != block ==> #[trigger] final(self).args_seq(b)
                    == old(self).args_seq(b) && final(self).reads_seq(b) == old(self).reads_seq(b)
                    && final(self).succs_seq(b) == old(self).succs_seq(b) && final(self).op_of(b)
                    == old(self).op_of(b) && final(self).block_data(b).span == old(
                    self,
                ).block_data(b).span,
            final(self).block_data(block).span == old(self).block_data(block).span,
            forall|b: Block|
                old(self).valid_block(b) ==> #[trigger] final(self).preds_seq(b)
                    == Self::preds_rewired(
                    *old(self),
                    block,
                    old(self).block_targets(reads@),
                    b,
                ),
    {
        proof {
            assert(old(self).block_wf(block));
            assert(old(self).edges_wf(block));
            old(self).lemma_block_targets(reads@);
        }
        let ghost pre = *old(self);
        let ghost tt = pre.block_targets(reads@);
        let ghost os = pre.succs_seq(block);
        proof {
            // successors are valid and duplicate-free; target validity
            assert(pre.block_set_pool.set_wf(pre.block_data(block).successors));
            assert(os.no_duplicates());
            assert forall|k: int| 0 <= k < tt.len() implies pre.valid_block(#[trigger] tt[k]) by {
                assert(tt.contains(tt[k]));
                let j = choose|j: int|
                    0 <= j < reads@.len() && pre.kind_of(#[trigger] reads@[j]) == ValueType::Block(
                        tt[k],
                    );
                assert(pre.value_wf(reads@[j]));
            }
            // membership of `block` in predecessor sets mirrors old edges
            assert forall|b: Block| pre.valid_block(b) implies (
            #[trigger] pre.preds_seq(b).contains(block) <==> os.contains(b)) by {
                assert(pre.edges_wf(b));
                assert(pre.edges_wf(block));
            }
        }
        // compute the target list, in first-occurrence order
        let mut targets: Vec<Block> = Vec::new();
        let n = reads.len();
        let mut i: usize = 0;
        proof {
            assert(reads@.take(0) =~= Seq::<Value>::empty());
        }
        while i < n
            invariant
                i <= n,
                targets@ == pre.block_targets(reads@.take(i as int)),
            decreases n - i,
        {
            let v = reads[i];
            proof {
                pre.lemma_block_targets_step(reads@, i as int);
            }
            match self.values[v.0].kind {
                ValueType::Block(s) => {
                    if !vec_contains_block(&targets, s) {
                        targets.push(s);
                    }
                },
                _ => {},
            }
            i = i + 1;
        }
        proof {
            assert(reads@.take(n as int) =~= reads@);
            assert(targets@ == tt);
        }
        // detach the edges that disappear
        let old_succs: Vec<Block> = self.block_set_pool.members(self.blocks[block.0].successors);
        let m = old_succs.len();
        let mut j: usize = 0;
        while j < m
            invariant
                j <= m,
                old_succs@ == os,
                m == os.len(),
                self.blocks@ == pre.blocks@,
                self.values@ == pre.values@,
                self.value_pool == pre.value_pool,
                self.clause_pool == pre.clause_pool,
                self.fun_refs@ == pre.fun_refs@,
                self.block_values@ == pre.block_values@,
                self.constant_values@ == pre.constant_values@,
                self.pattern_container == pre.pattern_container,
                self.constant_container == pre.constant_container,
                self.entry_block == pre.entry_block,
                self.ident == pre.ident,
                self.block_set_pool.sets@.len() == pre.block_set_pool.sets@.len(),
                self.block_set_pool.pool_wf(),
                forall|b: Block|
                    pre.valid_block(b) ==> #[trigger] self.succs_seq(b) == pre.succs_seq(b),
                forall|b: Block|
                    pre.valid_block(b) ==> #[trigger] self.preds_seq(b) == (
                    if os.take(j as int).contains(b) && !tt.contains(b) {
                        pre.preds_seq(b).remove_value(block)
                    } else {
                        pre.preds_seq(b)
                    }),
            decreases m - j,
        {
            let s = old_succs[j];
            proof {
                assert(os[j as int] == s);
                assert(os.contains(s));
                assert(pre.valid_block(s));
                assert(pre.block_wf(s));
                assert(os.take(j + 1) =~= os.take(j as int).push(s));
                assert(!os.take(j as int).contains(s)) by {
                    if os.take(j as int).contains(s) {
                        let q = choose|q: int| 0 <= q < j && os.take(j as int)[q] == s;
                        assert(os[q] == s);
                    }
                }
            }
            proof {
                assert forall|b: Block| #[trigger] os.take(j + 1).contains(b) implies os.take(
                    j as int,
                ).contains(b) || b == s by {
                    let q = choose|q: int| 0 <= q < j + 1 && #[trigger] os.take(j + 1)[q] == b;
                    if q < j {
                        assert(os.take(j as int)[q] == b);
                    }
                }
                assert forall|b: Block| os.take(j as int).contains(b) implies #[trigger] os.take(
                    j + 1,
                ).contains(b) by {
                    let q = choose|q: int| 0 <= q < j && os.take(j as int)[q] == b;
                    assert(os.take(j + 1)[q] == b);
                }
                assert(os.take(j + 1).contains(s)) by {
                    assert(os.take(j + 1)[j as int] == s);
                }
            }
            if !vec_contains_block(&targets, s) {
                let h = self.blocks[s.0].predecessors;
                proof {
                    assert(h == pre.block_data(s).predecessors);
                    assert(h.idx == 2 * s.0);
                    assert(self.block_set_pool.set_wf(h));
                }
                let ghost mid = *self;
                let _removed = self.block_set_pool.remove(h, block);
                proof {
                    assert forall|b: Block| pre.valid_block(b) implies #[trigger] self.preds_seq(b)
                        == (if os.take(j + 1).contains(b) && !tt.contains(b) {
                        pre.preds_seq(b).remove_value(block)
                    } else {
                        pre.preds_seq(b)
                    }) by {
                        assert(pre.block_wf(b));
                        if b == s {
                            assert(mid.preds_seq(s) == pre.preds_seq(s)) by {
                                assert(!os.take(j as int).contains(s));
                            }
                            assert(self.preds_seq(s) == pre.preds_seq(s).remove_value(block));
                            assert(os.take(j + 1).contains(s) && !tt.contains(s));
                        } else {
                            assert(pre.block_data(b).predecessors.idx == 2 * b.0);
                            assert(pre.block_data(b).predecessors.idx != h.idx);
                            assert(self.preds_seq(b) == mid.preds_seq(b));
                            assert(mid.preds_seq(b) == (if os.take(j as int).contains(b)
                                && !tt.contains(b) {
                                pre.preds_seq(b).remove_value(block)
                            } else {
                                pre.preds_seq(b)
                            }));
                            assert(os.take(j + 1).contains(b) <==> os.take(j as int).contains(b));
                        }
                    }
                    assert forall|b: Block| pre.valid_block(b) implies #[trigger] self.succs_seq(b)
                        == pre.succs_seq(b) by {
                        assert(pre.block_wf(b));
                        assert(pre.block_data(b).successors.idx == 2 * b.0 + 1);
                        assert(self.succs_seq(b) == mid.succs_seq(b));
                    }
                }
            } else {
                proof {
                    assert forall|b: Block| pre.valid_block(b) implies #[trigger] self.preds_seq(b)
                        == (if os.take(j + 1).contains(b) && !tt.contains(b) {
                        pre.preds_seq(b).remove_value(block)
                    } else {
                        pre.preds_seq(b)
                    }) by {
                        if b == s {
                            assert(tt.contains(s));
                        } else {
                            assert(os.take(j + 1).contains(b) <==> os.take(j as int).contains(b));
                        }
                    }
                }
            }
            j = j + 1;
        }
        proof {
            assert(os.take(m as int) =~= os);
        }
        // empty the successor set, rebuilt below in target order
        let hsucc = self.blocks[block.0].successors;
        proof {
            assert(hsucc == pre.block_data(block).successors);
            assert(hsucc.idx == 2 * block.0 + 1);
            assert(self.block_set_pool.set_wf(hsucc));
        }
        let ghost before_clear = *self;
        self.block_set_pool.clear(hsucc);
        proof {
            assert forall|b: Block| pre.valid_block(b) && b != block implies #[trigger] self.succs_seq(
                b,
            ) == pre.succs_seq(b) by {
                assert(pre.block_wf(b));
                assert(pre.block_data(b).successors.idx == 2 * b.0 + 1);
                assert(self.succs_seq(b) == before_clear.succs_seq(b));
            }
            assert forall|b: Block| pre.valid_block(b) implies #[trigger] self.preds_seq(b)
                == before_clear.preds_seq(b) by {
                assert(pre.block_wf(b));
                assert(pre.block_data(b).predecessors.idx == 2 * b.0);
            }
            assert(self.succs_seq(block).len() == 0);
        }
        let ghost after_clear = *self;
        // install the new reads and op
        let rl = self.value_pool.intern(reads);
        self.blocks[block.0].reads = rl;
        self.blocks[block.0].op = Some(op);
        let ghost installed = *self;
        proof {
            assert(installed.block_set_pool == after_clear.block_set_pool);
            assert forall|b: Block|
                #![trigger installed.preds_seq(b)]
                #![trigger installed.succs_seq(b)]
                pre.valid_block(b) implies installed.preds_seq(b) == (if !tt.contains(b)
                && os.contains(b) {
                pre.preds_seq(b).remove_value(block)
            } else {
                pre.preds_seq(b)
            }) && (b != block ==> installed.succs_seq(b) == pre.succs_seq(b)) by {
                assert(pre.block_wf(b));
                assert(installed.block_data(b).predecessors == pre.block_data(b).predecessors);
                assert(installed.block_data(b).successors == pre.block_data(b).successors);
                assert(installed.preds_seq(b) == after_clear.preds_seq(b));
                assert(after_clear.preds_seq(b) == before_clear.preds_seq(b));
                assert(os.take(os.len() as int) =~= os);
                if b != block {
                    assert(installed.succs_seq(b) == after_clear.succs_seq(b));
                    assert(after_clear.succs_seq(b) == pre.succs_seq(b));
                }
            }
            assert(installed.succs_seq(block) == after_clear.succs_seq(block));
            assert(installed.succs_seq(block).len() == 0);
            assert(installed.succs_seq(block) =~= tt.take(0));
            assert(installed.value_pool.extends(pre.value_pool));
            assert forall|b: Block| pre.valid_block(b) implies #[trigger] installed.args_seq(b)
                == pre.args_seq(b) && (b != block ==> installed.reads_seq(b) == pre.reads_seq(b))
                by {
                assert(pre.block_wf(b));
                installed.value_pool.lemma_extends_preserves(
                    pre.value_pool,
                    pre.block_data(b).arguments,
                );
                if b != block {
                    assert(installed.block_data(b) == pre.block_data(b));
                    installed.value_pool.lemma_extends_preserves(
                        pre.value_pool,
                        pre.block_data(b).reads,
                    );
                }
            }
            assert(installed.reads_seq(block) == reads@);
        }
        // attach the new edges, in target order
        let k = targets.len();
        let mut a: usize = 0;
        while a < k
            invariant
                a <= k,
                k == tt.len(),
                targets@ == tt,
                self.blocks@ == installed.blocks@,
                self.values@ == pre.values@,
                self.value_pool == installed.value_pool,
                self.clause_pool == pre.clause_pool,
                self.fun_refs@ == pre.fun_refs@,
                self.block_values@ == pre.block_values@,
                self.constant_values@ == pre.constant_values@,
                self.pattern_container == pre.pattern_container,
                self.constant_container == pre.constant_container,
                self.entry_block == pre.entry_block,
                self.ident == pre.ident,
                self.block_set_pool.sets@.len() == pre.block_set_pool.sets@.len(),
                self.block_set_pool.pool_wf(),
                self.succs_seq(block) == tt.take(a as int),
                forall|b: Block|
                    pre.valid_block(b) && b != block ==> #[trigger] self.succs_seq(b)
                        == pre.succs_seq(b),
                forall|b: Block|
                    pre.valid_block(b) ==> #[trigger] self.preds_seq(b) == (
                    if tt.take(a as int).contains(b) && !os.contains(b) {
                        pre.preds_seq(b).push(block)
                    } else if !tt.contains(b) && os.contains(b) {
                        pre.preds_seq(b).remove_value(block)
                    } else {
                        pre.preds_seq(b)
                    }),
            decreases k - a,
        {
            let s = targets[a];
            proof {
                assert(tt[a as int] == s);
                assert(tt.contains(s));
                assert(pre.valid_block(s));
                assert(pre.block_wf(s));
                assert(pre.block_wf(block));
                assert(tt.take(a + 1) =~= tt.take(a as int).push(s));
                assert(!tt.take(a as int).contains(s)) by {
                    if tt.take(a as int).contains(s) {
                        let q = choose|q: int| 0 <= q < a && tt.take(a as int)[q] == s;
                        assert(tt[q] == s);
                    }
                }
            }
            let hs = self.blocks[block.0].successors;
            proof {
                assert(hs == pre.block_data(block).successors);
                assert(hs.idx == 2 * block.0 + 1);
                assert(self.block_set_pool.set_wf(hs));
                assert(!self.succs_seq(block).contains(s));
            }
            let ghost mid1 = *self;
            let _ins1 = self.block_set_pool.insert(hs, s);
            proof {
                assert(self.succs_seq(block) == tt.take(a as int).push(s));
                assert forall|b: Block| pre.valid_block(b) implies #[trigger] self.preds_seq(b)
                    == mid1.preds_seq(b) by {
                    assert(pre.block_wf(b));
                    assert(pre.block_data(b).predecessors.idx == 2 * b.0);
                }
                assert forall|b: Block| pre.valid_block(b) && b != block implies #[trigger] self.succs_seq(
                    b,
                ) == pre.succs_seq(b) by {
                    assert(pre.block_wf(b));
                    assert(pre.block_data(b).successors.idx == 2 * b.0 + 1);
                    assert(self.succs_seq(b) == mid1.succs_seq(b));
                }
            }
            let hp = self.blocks[s.0].predecessors;
            proof {
                assert(hp == pre.block_data(s).predecessors);
                assert(hp.idx == 2 * s.0);
                assert(self.block_set_pool.set_wf(hp));
            }
            let ghost mid2 = *self;
            let _ins2 = self.block_set_pool.insert(hp, block);
            proof {
                assert forall|b: Block| pre.valid_block(b) && b != block implies #[trigger] self.succs_seq(
                    b,
                ) == pre.succs_seq(b) by {
                    assert(pre.block_wf(b));
                    assert(pre.block_data(b).successors.idx == 2 * b.0 + 1);
                    assert(self.succs_seq(b) == mid2.succs_seq(b));
                }
                assert(self.succs_seq(block) == mid2.succs_seq(block));
                // how membership in the first a+1 targets relates to the first a
                assert forall|b: Block| #[trigger] tt.take(a + 1).contains(b) implies tt.take(
                    a as int,
                ).contains(b) || b == s by {
                    let q = choose|q: int| 0 <= q < a + 1 && #[trigger] tt.take(a + 1)[q] == b;
                    if q < a {
                        assert(tt.take(a as int)[q] == b);
                    }
                }
                assert forall|b: Block| tt.take(a as int).contains(b) implies #[trigger] tt.take(
                    a + 1,
                ).contains(b) by {
                    let q = choose|q: int| 0 <= q < a && tt.take(a as int)[q] == b;
                    assert(tt.take(a + 1)[q] == b);
                }
                assert(tt.take(a + 1).contains(s)) by {
                    assert(tt.take(a + 1)[a as int] == s);
                }
                assert forall|b: Block| pre.valid_block(b) implies #[trigger] self.preds_seq(b)
                    == (if tt.take(a + 1).contains(b) && !os.contains(b) {
                    pre.preds_seq(b).push(block)
                } else if !tt.contains(b) && os.contains(b) {
                    pre.preds_seq(b).remove_value(block)
                } else {
                    pre.preds_seq(b)
                }) by {
                    assert(pre.block_wf(b));
                    assert(mid2.preds_seq(b) == mid1.preds_seq(b));
                    if b == s {
                        assert(mid1.preds_seq(s) == pre.preds_seq(s)) by {
                            assert(!tt.take(a as int).contains(s));
                            assert(tt.contains(s));
                        }
                        if os.contains(s) {
                            // the edge stays: `block` is already a member
                            assert(pre.preds_seq(s).contains(block));
                            assert(mid2.preds_seq(s).contains(block));
                            assert(self.preds_seq(s) == pre.preds_seq(s));
                        } else {
                            assert(!pre.preds_seq(s).contains(block));
                            assert(!mid2.preds_seq(s).contains(block));
                            assert(self.preds_seq(s) == pre.preds_seq(s).push(block));
                        }
                    } else {
                        assert(pre.block_data(b).predecessors.idx == 2 * b.0);
                        assert(pre.block_data(b).predecessors.idx != hp.idx);
                        assert(self.preds_seq(b) == mid2.preds_seq(b));
                        assert(mid1.preds_seq(b) == (if tt.take(a as int).contains(b)
                            && !os.contains(b) {
                            pre.preds_seq(b).push(block)
                        } else if !tt.contains(b) && os.contains(b) {
                            pre.preds_seq(b).remove_value(block)
                        } else {
                            pre.preds_seq(b)
                        }));
                        assert(tt.take(a + 1).contains(b) <==> tt.take(a as int).contains(b));
                    }
                }
            }
            a = a + 1;
        }
        proof {
            assert(tt.take(k as int) =~= tt);
            let post = *self;
            // final shape of every block
            assert forall|b: Block| pre.valid_block(b) implies #[trigger] post.args_seq(b)
                == pre.args_seq(b) && (b != block ==> post.reads_seq(b) == pre.reads_seq(b)
                && post.op_of(b) == pre.op_of(b) && post.block_data(b).span == pre.block_data(
                b,
            ).span) by {
                assert(pre.block_wf(b));
                post.value_pool.lemma_extends_preserves(
                    pre.value_pool,
                    pre.block_data(b).arguments,
                );
                if b != block {
                    assert(post.block_data(b) == pre.block_data(b));
                    post.value_pool.lemma_extends_preserves(
                        pre.value_pool,
                        pre.block_data(b).reads,
                    );
                }
            }
            assert(post.reads_seq(block) == reads@);
            assert(post.succs_seq(block) == tt);
            // membership characterizations used below
            assert forall|b: Block|
                #![trigger post.preds_seq(b)]
                pre.valid_block(b) implies (post.preds_seq(b).contains(block) <==> tt.contains(b))
                && (forall|p: Block|
                p != block ==> (#[trigger] post.preds_seq(b).contains(p) <==> pre.preds_seq(
                    b,
                ).contains(p))) && post.preds_seq(b).no_duplicates() by {
                assert(pre.block_wf(b));
                assert(pre.block_set_pool.set_wf(pre.block_data(b).predecessors));
                assert(pre.preds_seq(b).no_duplicates());
                lemma_remove_value_membership(pre.preds_seq(b), block);
                if tt.contains(b) && !os.contains(b) {
                    assert(post.preds_seq(b) == pre.preds_seq(b).push(block));
                    assert(post.preds_seq(b).no_duplicates()) by {
                        let u = pre.preds_seq(b).push(block);
                        assert(!pre.preds_seq(b).contains(block));
                        assert forall|x: int, y: int|
                            0 <= x < u.len() && 0 <= y < u.len() && x != y implies u[x] != u[y] by {
                            if x < u.len() - 1 && y < u.len() - 1 {
                            } else if x < u.len() - 1 {
                                assert(u[y] == block);
                                assert(pre.preds_seq(b).contains(u[x]));
                            } else {
                                assert(u[x] == block);
                                assert(pre.preds_seq(b).contains(u[y]));
                            }
                        }
                    }
                    assert(post.preds_seq(b).contains(block)) by {
                        assert(post.preds_seq(b).last() == block);
                    }
                    assert forall|p: Block|
                        p != block implies (#[trigger] post.preds_seq(b).contains(p)
                            <==> pre.preds_seq(b).contains(p)) by {
                        if post.preds_seq(b).contains(p) {
                            let q = choose|q: int|
                                0 <= q < post.preds_seq(b).len() && post.preds_seq(b)[q] == p;
                            assert(q < pre.preds_seq(b).len());
                        }
                        if pre.preds_seq(b).contains(p) {
                            let q = choose|q: int|
                                0 <= q < pre.preds_seq(b).len() && pre.preds_seq(b)[q] == p;
                            assert(post.preds_seq(b)[q] == p);
                        }
                    }
                } else if !tt.contains(b) && os.contains(b) {
                    assert(post.preds_seq(b) == pre.preds_seq(b).remove_value(block));
                } else {
                    assert(post.preds_seq(b) == pre.preds_seq(b));
                }
            }
            // well-formedness of every block
            assert forall|b: Block| post.valid_block(b) implies #[trigger] post.block_wf(b) by {
                assert(pre.block_wf(b));
                post.value_pool.lemma_extends_preserves(
                    pre.value_pool,
                    pre.block_data(b).arguments,
                );
                post.value_pool.lemma_extends_preserves(pre.value_pool, pre.block_data(b).reads);
                assert(post.args_seq(b) == pre.args_seq(b));
                assert forall|i2: int| 0 <= i2 < post.args_seq(b).len() implies post.valid_value(
                    #[trigger] post.args_seq(b)[i2],
                ) && post.kind_of(post.args_seq(b)[i2]) == ValueType::Arg(b) by {
                    assert(pre.args_seq(b)[i2] == post.args_seq(b)[i2]);
                    assert(pre.valid_value(pre.args_seq(b)[i2]));
                    assert(pre.kind_of(pre.args_seq(b)[i2]) == ValueType::Arg(b));
                }
                assert forall|i2: int| 0 <= i2 < post.reads_seq(b).len() implies post.valid_value(
                    #[trigger] post.reads_seq(b)[i2],
                ) by {
                    if b == block {
                        assert(post.reads_seq(b)[i2] == reads@[i2]);
                    } else {
                        assert(pre.reads_seq(b)[i2] == post.reads_seq(b)[i2]);
                        assert(pre.valid_value(pre.reads_seq(b)[i2]));
                    }
                }
                assert forall|i2: int| 0 <= i2 < post.succs_seq(b).len() implies post.valid_block(
                    #[trigger] post.succs_seq(b)[i2],
                ) by {
                    if b == block {
                        assert(post.succs_seq(b)[i2] == tt[i2]);
                    } else {
                        assert(pre.succs_seq(b)[i2] == post.succs_seq(b)[i2]);
                        assert(pre.valid_block(pre.succs_seq(b)[i2]));
                    }
                }
                assert forall|i2: int| 0 <= i2 < post.preds_seq(b).len() implies post.valid_block(
                    #[trigger] post.preds_seq(b)[i2],
                ) by {
                    let p = post.preds_seq(b)[i2];
                    assert(post.preds_seq(b).contains(p));
                    if p == block {
                    } else {
                        assert(pre.preds_seq(b).contains(p));
                        let q = choose|q: int|
                            0 <= q < pre.preds_seq(b).len() && pre.preds_seq(b)[q] == p;
                        assert(pre.valid_block(pre.preds_seq(b)[q]));
                    }
                }
                assert(post.op_payload_wf(b)) by {
                    if b == block {
                        assert(post.block_data(b).op == Some(op));
                        assert(pre.op_payload_ok(op));
                        match op {
                            crate::op::OpKind::Case { clauses } => {
                                assert(post.clause_pool == pre.clause_pool);
                            },
                            _ => {},
                        }
                    } else {
                        assert(pre.op_payload_wf(b));
                        assert(post.block_data(b).op == pre.block_data(b).op);
                    }
                }
                assert(post.block_data(b).op is None ==> post.reads_seq(b).len() == 0
                    && post.succs_seq(b).len() == 0) by {
                    if b != block && pre.block_data(b).op is None {
                        assert(pre.reads_seq(b).len() == 0);
                        assert(pre.succs_seq(b).len() == 0);
                    }
                }
            }
            assert forall|v2: Value| post.valid_value(v2) implies #[trigger] post.value_wf(v2) by {
                assert(pre.value_wf(v2));
            }
            // edge invariants
            assert forall|b: Block| post.valid_block(b) implies #[trigger] post.edges_wf(b) by {
                assert(pre.edges_wf(b));
                assert(pre.block_wf(b));
                assert forall|i2: int|
                    0 <= i2 < post.reads_seq(b).len() implies match post.kind_of(
                    #[trigger] post.reads_seq(b)[i2],
                ) {
                    ValueType::Block(s) => post.succs_seq(b).contains(s),
                    _ => true,
                } by {
                    if b == block {
                        assert(post.reads_seq(b)[i2] == reads@[i2]);
                        match post.kind_of(reads@[i2]) {
                            ValueType::Block(s) => {
                                assert(tt.contains(s));
                            },
                            _ => {},
                        }
                    } else {
                        assert(post.reads_seq(b)[i2] == pre.reads_seq(b)[i2]);
                        match pre.kind_of(pre.reads_seq(b)[i2]) {
                            ValueType::Block(s) => {
                                assert(pre.succs_seq(b).contains(s));
                                assert(post.succs_seq(b) == pre.succs_seq(b));
                            },
                            _ => {},
                        }
                    }
                }
                assert forall|s: Block| #[trigger] post.succs_seq(b).contains(s) implies post.is_block_read(
                    b,
                    s,
                ) && post.preds_seq(s).contains(b) by {
                    if b == block {
                        assert(tt.contains(s));
                        let q = choose|q: int|
                            0 <= q < reads@.len() && pre.kind_of(#[trigger] reads@[q])
                                == ValueType::Block(s);
                        assert(post.reads_seq(b)[q] == reads@[q]);
                        assert(post.kind_of(post.reads_seq(b)[q]) == ValueType::Block(s));
                        assert(pre.valid_block(s));
                        assert(post.preds_seq(s).contains(block));
                    } else {
                        assert(pre.succs_seq(b).contains(s));
                        assert(pre.is_block_read(b, s));
                        assert(pre.valid_block(s));
                        let q = choose|q: int|
                            0 <= q < pre.reads_seq(b).len() && pre.kind_of(
                                #[trigger] pre.reads_seq(b)[q],
                            ) == ValueType::Block(s);
                        assert(post.kind_of(post.reads_seq(b)[q]) == ValueType::Block(s));
                        assert(pre.preds_seq(s).contains(b));
                        assert(post.preds_seq(s).contains(b));
                    }
                }
                assert forall|p: Block| #[trigger] post.preds_seq(b).contains(p) implies post.succs_seq(
                    p,
                ).contains(b) by {
                    if p == block {
                        assert(tt.contains(b));
                        assert(post.succs_seq(block) == tt);
                    } else {
                        assert(pre.preds_seq(b).contains(p));
                        assert(pre.valid_block(p));
                        assert(pre.succs_seq(p).contains(b));
                        assert(post.succs_seq(p) == pre.succs_seq(p));
                    }
                }
            }
            assert forall|b2: Block| post.valid_block(b2) implies post.valid_value(
                #[trigger] post.block_value_of(b2),
            ) && post.kind_of(post.block_value_of(b2)) == ValueType::Block(b2) by {
                assert(pre.block_value_of(b2) == post.block_value_of(b2));
                assert(pre.valid_value(pre.block_value_of(b2)));
                assert(pre.kind_of(pre.block_value_of(b2)) == ValueType::Block(b2));
            }
            assert(post.block_values_wf());
            assert(post.const_cache_wf()) by {
                assert forall|i2: int| 0 <= i2 < post.constant_values@.len() implies post.valid_value(
                    #[trigger] post.constant_values@[i2],
                ) && post.kind_of(post.constant_values@[i2]) is Constant by {
                    assert(pre.constant_values@[i2] == post.constant_values@[i2]);
                    assert(pre.valid_value(pre.constant_values@[i2]));
                    assert(pre.kind_of(pre.constant_values@[i2]) is Constant);
                }
                assert(post.constant_values@.no_duplicates());
                assert forall|v1: Value, v2: Value|
                    post.valid_value(v1) && post.valid_value(v2) && #[trigger] post.kind_of(v1)
                        == #[trigger] post.kind_of(v2) && post.kind_of(v1) is Constant implies v1
                    == v2 by {
                    assert(pre.kind_of(v1) == post.kind_of(v1));
                    assert(pre.kind_of(v2) == post.kind_of(v2));
                }
            }
            assert forall|b: Block|
                pre.valid_block(b) && b != block implies #[trigger] post.succs_seq(b)
                == pre.succs_seq(b) && post.reads_seq(b) == pre.reads_seq(b) && post.args_seq(b)
                == pre.args_seq(b) && post.op_of(b) == pre.op_of(b) by {
                assert(pre.block_wf(b));
                assert(post.block_data(b) == pre.block_data(b));
                assert(post.args_seq(b) == pre.args_seq(b));
                post.value_pool.lemma_extends_preserves(pre.value_pool, pre.block_data(b).reads);
            }
        }
    }
}

impl Function {
    /// The self-reference value of a block, usable as a call target.
    pub fn block_value(&self, b: Block) -> (r: Value)
        requires
            self.wf(),
            self.valid_block(b),
        ensures
            r == self.block_value_of(b),
            self.valid_value(r),
            self.kind_of(r) == ValueType::Block(b),
    {
        proof {
            assert(self.block_values_wf());
        }
        self.block_values[b.0]
    }

    /// Assign a control-flow op: invoke `target` with `args`, never to
    /// return. A jump when the target is a block value, a tail call
    /// otherwise.
    #[verifier::loop_isolation(false)]
    pub fn op_call_flow(&mut self, block: Block, target: Value, args: &Vec<Value>)
        requires
            old(self).wf(),
            old(self).graph_wf(),
            old(self).valid_block(block),
            old(self).valid_value(target),
            forall|i: int| 0 <= i < args@.len() ==> old(self).valid_value(#[trigger] args@[i]),
        ensures
            final(self).wf(),
            final(self).graph_wf(),
            final(self).values_retained(*old(self)),
            final(self).misc_retained(*old(self)),
            final(self).blocks@.len() == old(self).blocks@.len(),
            final(self).op_of(block) == Some(crate::op::OpKind::CallFlow),
            final(self).reads_seq(block) == seq![target] + args@,
            final(self).succs_seq(block) == old(self).block_targets(seq![target] + args@),
            final(self).args_seq(block) == old(self).args_seq(block),
            forall|b: Block|
                old(self).valid_block(b) && b != block ==> #[trigger] final(self).args_seq(b)
                    == old(self).args_seq(b) && final(self).reads_seq(b) == old(self).reads_seq(b)
                    && final(self).succs_seq(b) == old(self).succs_seq(b) && final(self).op_of(b)
                    == old(self).op_of(b),
            forall|b: Block|
                old(self).valid_block(b) ==> #[trigger] final(self).preds_seq(b)
                    == Self::preds_rewired(
                    *old(self),
                    block,
                    old(self).block_targets(seq![target] + args@),
                    b,
                ),
    {
        let mut reads: Vec<Value> = Vec::new();
        reads.push(target);
        let n = args.len();
        let mut i: usize = 0;
        while i < n
            invariant
                i <= n,
                reads@ == seq![target] + args@.take(i as int),
            decreases n - i,
        {
            reads.push(args[i]);
            proof {
                assert(seq![target] + args@.take(i + 1) =~= (seq![target] + args@.take(
                    i as int,
                )).push(args@[i as int]));
            }
            i = i + 1;
        }
        proof {
            assert(args@.take(n as int) =~= args@);
            assert(reads@ == seq![target] + args@);
            assert forall|k: int| 0 <= k < reads@.len() implies old(self).valid_value(
                #[trigger] reads@[k],
            ) by {
                if k == 0 {
                    assert(reads@[0] == target);
                } else {
                    assert(reads@[k] == args@[k - 1]);
                }
            }
        }
        self.block_set_op(block, crate::op::OpKind::CallFlow, &reads);
    }
}

/// Builder over an owned function: the mutation interface the lowering
/// and the passes use. `finish` hands the function back.
pub struct FunctionBuilder {
    pub fun: Function,
}

impl Function {
    /// Open a builder over this function.
    pub fn builder(self) -> (r: FunctionBuilder)
        ensures
            r.fun == self,
    {
        FunctionBuilder { fun: self }
    }
}

impl FunctionBuilder {
    pub fn new(fun: Function) -> (r: FunctionBuilder)
        ensures
            r.fun == fun,
    {
        FunctionBuilder { fun }
    }

    pub fn fun(&self) -> (r: &Function)
        ensures
            *r == self.fun,
    {
        &self.fun
    }

    pub fn finish(self) -> (r: Function)
        ensures
            r == self.fun,
    {
        self.fun
    }

    /// Allocate a new block and its self-reference value.
    pub fn block_insert(&mut self) -> (r: Block)
        requires
            old(self).fun.wf(),
            old(self).fun.graph_wf(),
        ensures
            final(self).fun.wf(),
            final(self).fun.graph_wf(),
            final(self).fun.retained(old(self).fun),
            r.0 == old(self).fun.blocks@.len(),
            final(self).fun.blocks@.len() == old(self).fun.blocks@.len() + 1,
            final(self).fun.valid_block(r),
            final(self).fun.args_seq(r).len() == 0,
            final(self).fun.reads_seq(r).len() == 0,
            final(self).fun.succs_seq(r).len() == 0,
            final(self).fun.preds_seq(r).len() == 0,
            final(self).fun.op_of(r) is None,
    {
        self.fun.block_insert()
    }

    /// Append a fresh argument value to a block.
    pub fn block_arg_insert(&mut self, block: Block) -> (r: Value)
        requires
            old(self).fun.wf(),
            old(self).fun.graph_wf(),
            old(self).fun.valid_block(block),
        ensures
            final(self).fun.wf(),
            final(self).fun.graph_wf(),
            final(self).fun.values_retained(old(self).fun),
            final(self).fun.misc_retained(old(self).fun),
            final(self).fun.blocks@.len() == old(self).fun.blocks@.len(),
            final(self).fun.args_seq(block) == old(self).fun.args_seq(block).push(r),
            final(self).fun.valid_value(r),
            final(self).fun.kind_of(r) == ValueType::Arg(block),
            forall|b: Block|
                old(self).fun.valid_block(b) && b != block
                    ==> #[trigger] final(self).fun.same_block_shape(old(self).fun, b),
            final(self).fun.reads_seq(block) == old(self).fun.reads_seq(block),
            final(self).fun.succs_seq(block) == old(self).fun.succs_seq(block),
            final(self).fun.preds_seq(block) == old(self).fun.preds_seq(block),
            final(self).fun.op_of(block) == old(self).fun.op_of(block),
    {
        self.fun.block_arg_insert(block)
    }

    /// Designate the entry block.
    pub fn block_set_entry(&mut self, block: Block)
        requires
            old(self).fun.wf(),
            old(self).fun.graph_wf(),
            old(self).fun.valid_block(block),
        ensures
            final(self).fun.wf(),
            final(self).fun.graph_wf(),
            final(self).fun.blocks_retained(old(self).fun),
            final(self).fun.values_retained(old(self).fun),
            final(self).fun.entry_block == Some(block),
            final(self).fun == (Function { entry_block: Some(block), ..old(self).fun }),
    {
        self.fun.block_set_entry(block)
    }

    /// Get or create the value of a constant literal.
    pub fn value_const(&mut self, term: AtomicTerm) -> (r: Value)
        requires
            old(self).fun.wf(),
            old(self).fun.graph_wf(),
        ensures
            final(self).fun.wf(),
            final(self).fun.graph_wf(),
            final(self).fun.blocks_retained(old(self).fun),
            final(self).fun.values_retained(old(self).fun),
            final(self).fun.misc_retained(old(self).fun),
            final(self).fun.valid_value(r),
            final(self).fun.kind_of(r) is Constant,
    {
        self.fun.value_const(term)
    }

    /// The self-reference value of a block.
    pub fn block_value(&self, b: Block) -> (r: Value)
        requires
            self.fun.wf(),
            self.fun.valid_block(b),
        ensures
            r == self.fun.block_value_of(b),
            self.fun.valid_value(r),
            self.fun.kind_of(r) == ValueType::Block(b),
    {
        self.fun.block_value(b)
    }

    /// Assign a control-flow op to a block.
    pub fn op_call_flow(&mut self, block: Block, target: Value, args: &Vec<Value>)
        requires
            old(self).fun.wf(),
            old(self).fun.graph_wf(),
            old(self).fun.valid_block(block),
            old(self).fun.valid_value(target),
            forall|i: int| 0 <= i < args@.len() ==> old(self).fun.valid_value(#[trigger] args@[i]),
        ensures
            final(self).fun.wf(),
            final(self).fun.graph_wf(),
            final(self).fun.values_retained(old(self).fun),
            final(self).fun.misc_retained(old(self).fun),
            final(self).fun.blocks@.len() == old(self).fun.blocks@.len(),
            final(self).fun.op_of(block) == Some(crate::op::OpKind::CallFlow),
            final(self).fun.reads_seq(block) == seq![target] + args@,
            final(self).fun.succs_seq(block) == old(self).fun.block_targets(seq![target] + args@),
            forall|b: Block|
                old(self).fun.valid_block(b) && b != block
                    ==> #[trigger] final(self).fun.args_seq(b) == old(self).fun.args_seq(b)
                    && final(self).fun.reads_seq(b) == old(self).fun.reads_seq(b)
                    && final(self).fun.succs_seq(b) == old(self).fun.succs_seq(b)
                    && final(self).fun.op_of(b) == old(self).fun.op_of(b),
            forall|b: Block|
                old(self).fun.valid_block(b) ==> #[trigger] final(self).fun.preds_seq(b)
                    == Function::preds_rewired(
                    old(self).fun,
                    block,
                    old(self).fun.block_targets(seq![target] + args@),
                    b,
                ),
    {
        self.fun.op_call_flow(block, target, args)
    }
}

impl Function {
    /// Remove one formal parameter of a block, shifting the rest left.
    pub fn block_args_remove(&mut self, block: Block, i: usize)
        requires
            old(self).wf(),
            old(self).graph_wf(),
            old(self).valid_block(block),
            i < old(self).args_seq(block).len(),
        ensures
            final(self).wf(),
            final(self).graph_wf(),
            final(self).values_retained(*old(self)),
            final(self).misc_retained(*old(self)),
            final(self).blocks@.len() == old(self).blocks@.len(),
            forall|b: Block|
                old(self).valid_block(b) && b != block ==> #[trigger] final(self).same_block_shape(
                    *old(self),
                    b,
                ),
            final(self).args_seq(block) == old(self).args_seq(block).remove(i as int),
            final(self).reads_seq(block) == old(self).reads_seq(block),
            final(self).succs_seq(block) == old(self).succs_seq(block),
            final(self).preds_seq(block) == old(self).preds_seq(block),
            final(self).op_of(block) == old(self).op_of(block),
            final(self).values@ == old(self).values@,
            final(self).constant_values@ == old(self).constant_values@,
    {
        proof {
            assert(old(self).block_wf(block));
        }
        let old_args = self.value_pool.get_all(self.blocks[block.0].arguments);
        let mut new_args: Vec<crate::fun::Value> = Vec::new();
        let n = old_args.len();
        let mut k: usize = 0;
        while k < n
            invariant
                k <= n,
                n == old(self).args_seq(block).len(),
                old_args@ == old(self).args_seq(block),
                i < n,
                new_args@ == (if k <= i {
                    old(self).args_seq(block).take(k as int)
                } else {
                    old(self).args_seq(block).take(i as int) + old(self).args_seq(block).subrange(
                        i + 1,
                        k as int,
                    )
                }),
                *self == *old(self),
            decreases n - k,
        {
            if k != i {
                new_args.push(old_args[k]);
            }
            proof {
                if k + 1 <= i {
                    assert(old(self).args_seq(block).take(k + 1) =~= old(self).args_seq(
                        block,
                    ).take(k as int).push(old(self).args_seq(block)[k as int]));
                } else if k == i {
                    assert(old(self).args_seq(block).take(i as int) + old(self).args_seq(
                        block,
                    ).subrange(i + 1, i + 1) =~= old(self).args_seq(block).take(i as int));
                } else {
                    assert(old(self).args_seq(block).take(i as int) + old(self).args_seq(
                        block,
                    ).subrange(i + 1, k + 1) =~= (old(self).args_seq(block).take(i as int) + old(
                        self,
                    ).args_seq(block).subrange(i + 1, k as int)).push(old(self).args_seq(
                        block,
                    )[k as int]));
                }
            }
            k = k + 1;
        }
        proof {
            assert(new_args@ =~= old(self).args_seq(block).remove(i as int));
        }
        let nl = self.value_pool.intern(&new_args);
        self.blocks[block.0].arguments = nl;
        proof {
            let pre = *old(self);
            let post = *self;
            assert(post.value_pool.extends(pre.value_pool));
            assert forall|b2: Block|
                #![trigger post.same_block_shape(pre, b2)]
                #![trigger post.reads_seq(b2)]
                #![trigger post.succs_seq(b2)]
                #![trigger post.preds_seq(b2)]
                #![trigger post.args_seq(b2)]
                pre.valid_block(b2) implies post.reads_seq(b2) == pre.reads_seq(b2)
                && post.succs_seq(b2) == pre.succs_seq(b2) && post.preds_seq(b2) == pre.preds_seq(
                b2,
            ) && post.op_of(b2) == pre.op_of(b2) && (b2 != block ==> post.args_seq(b2)
                == pre.args_seq(b2) && post.block_data(b2) == pre.block_data(b2)
                && post.same_block_shape(pre, b2)) by {
                assert(pre.block_wf(b2));
                post.value_pool.lemma_extends_preserves(pre.value_pool, pre.block_data(b2).reads);
                if b2 != block {
                    assert(post.block_data(b2) == pre.block_data(b2));
                    post.value_pool.lemma_extends_preserves(
                        pre.value_pool,
                        pre.block_data(b2).arguments,
                    );
                }
            }
            assert(post.args_seq(block) == pre.args_seq(block).remove(i as int));
            assert forall|v2: Value| pre.valid_value(v2) implies #[trigger] post.kind_of(v2)
                == pre.kind_of(v2) by {}
            assert forall|b2: Block| post.valid_block(b2) implies #[trigger] post.block_wf(b2) by {
                assert(pre.block_wf(b2));
                if b2 != block {
                    assert(post.clause_pool.data@.subrange(0, pre.clause_pool.data@.len() as int)
                        =~= pre.clause_pool.data@);
                    Self::lemma_block_wf_transfer(pre, post, b2);
                } else {
                    assert(post.value_pool.list_wf(post.block_data(b2).reads)) by {
                        post.value_pool.lemma_extends_preserves(
                            pre.value_pool,
                            pre.block_data(b2).reads,
                        );
                    }
                    let pa = pre.args_seq(b2);
                    pa.remove_ensures(i as int);
                    assert forall|k2: int| 0 <= k2 < post.args_seq(b2).len() implies post.valid_value(
                        #[trigger] post.args_seq(b2)[k2],
                    ) && post.kind_of(post.args_seq(b2)[k2]) == ValueType::Arg(b2) by {
                        if k2 < i {
                            assert(post.args_seq(b2)[k2] == pa[k2]);
                        } else {
                            assert(post.args_seq(b2)[k2] == pa[k2 + 1]);
                        }
                    }
                    assert(post.args_seq(b2).no_duplicates()) by {
                        let s = post.args_seq(b2);
                        assert forall|x: int, y: int|
                            0 <= x < s.len() && 0 <= y < s.len() && x != y implies s[x] != s[y] by {
                            assert(pa.no_duplicates());
                            let x2: int = if x < i { x } else { x + 1 };
                            let y2: int = if y < i { y } else { y + 1 };
                            assert(s[x] == pa[x2] && s[y] == pa[y2]);
                        }
                    }
                    assert(post.op_payload_wf(b2)) by {
                        assert(pre.op_payload_wf(b2));
                        match post.block_data(b2).op {
                            Some(crate::op::OpKind::Case { clauses }) => {
                                assert forall|k2: int|
                                    0 <= k2 < post.clause_pool.list_view(clauses).len()
                                        implies post.pattern_container.valid_clause(
                                        #[trigger] post.clause_pool.list_view(clauses)[k2],
                                    ) by {
                                    assert(pre.clause_pool.list_view(clauses)[k2]
                                        == post.clause_pool.list_view(clauses)[k2]);
                                    assert(pre.pattern_container.valid_clause(
                                        pre.clause_pool.list_view(clauses)[k2],
                                    ));
                                }
                            },
                            _ => {},
                        }
                    }
                }
            }
            assert forall|v2: Value| post.valid_value(v2) implies #[trigger] post.value_wf(v2) by {
                assert(pre.value_wf(v2));
            }
            Self::lemma_edges_transfer(pre, post);
            assert forall|b2: Block| post.valid_block(b2) implies #[trigger] post.edges_wf(b2) by {}
            assert forall|b2: Block| post.valid_block(b2) implies post.valid_value(
                #[trigger] post.block_value_of(b2),
            ) && post.kind_of(post.block_value_of(b2)) == ValueType::Block(b2) by {
                assert(pre.block_value_of(b2) == post.block_value_of(b2));
                assert(pre.valid_value(pre.block_value_of(b2)));
                assert(pre.kind_of(pre.block_value_of(b2)) == ValueType::Block(b2));
            }
            assert(post.block_values_wf());
            assert(post.const_cache_wf()) by {
                assert forall|i2: int| 0 <= i2 < post.constant_values@.len() implies post.valid_value(
                    #[trigger] post.constant_values@[i2],
                ) && post.kind_of(post.constant_values@[i2]) is Constant by {
                    assert(pre.valid_value(pre.constant_values@[i2]));
                    assert(pre.kind_of(pre.constant_values@[i2]) is Constant);
                }
                assert(post.constant_values@.no_duplicates());
                assert forall|v1: Value, v2: Value|
                    post.valid_value(v1) && post.valid_value(v2) && #[trigger] post.kind_of(v1)
                        == #[trigger] post.kind_of(v2) && post.kind_of(v1) is Constant implies v1
                    == v2 by {
                    assert(pre.kind_of(v1) == post.kind_of(v1));
                    assert(pre.kind_of(v2) == post.kind_of(v2));
                }
            }
        }
    }

    /// Rewrite a block-argument value that is no longer a parameter of
    /// any block into a forwarding alias of another value, and hand back
    /// the token naming what was written over.
    pub fn value_set_alias(&mut self, v: Value, target: Value) -> (tok: crate::fun::WriteToken)
        requires
            old(self).wf(),
            old(self).graph_wf(),
            old(self).valid_value(v),
            old(self).valid_value(target),
            old(self).kind_of(v) is Arg,
            target != v,
            forall|b: Block|
                old(self).valid_block(b) ==> !(#[trigger] old(self).args_seq(b).contains(v)),
        ensures
            final(self).wf(),
            final(self).graph_wf(),
            final(self).blocks_retained(*old(self)),
            final(self).misc_retained(*old(self)),
            final(self).blocks@.len() == old(self).blocks@.len(),
            final(self).values@.len() == old(self).values@.len(),
            final(self).kind_of(v) == ValueType::Alias(target),
            forall|v2: Value|
                old(self).valid_value(v2) && v2 != v ==> #[trigger] final(self).kind_of(v2) == old(
                    self,
                ).kind_of(v2),
            final(self).constant_values@ == old(self).constant_values@,
            final(self).value_pool == old(self).value_pool,
            tok.0 == v,
    {
        let old_span = self.values[v.0].span;
        self.values[v.0] = crate::fun::ValueData {
            kind: ValueType::Alias(target),
            span: old_span,
        };
        proof {
            let pre = *old(self);
            let post = *self;
            assert forall|v2: Value|
                pre.valid_value(v2) && v2 != v implies #[trigger] post.kind_of(v2) == pre.kind_of(
                v2,
            ) by {}
            assert forall|b2: Block|
                #![trigger post.same_block_shape(pre, b2)]
                #![trigger post.reads_seq(b2)]
                #![trigger post.succs_seq(b2)]
                #![trigger post.preds_seq(b2)]
                #![trigger post.args_seq(b2)]
                pre.valid_block(b2) implies post.same_block_shape(pre, b2) && post.reads_seq(b2)
                == pre.reads_seq(b2) && post.succs_seq(b2) == pre.succs_seq(b2) && post.preds_seq(
                b2,
            ) == pre.preds_seq(b2) && post.args_seq(b2) == pre.args_seq(b2) && post.block_data(b2)
                == pre.block_data(b2) by {
                assert(pre.block_wf(b2));
                assert(post.block_data(b2) == pre.block_data(b2));
            }
            assert forall|b2: Block| post.valid_block(b2) implies #[trigger] post.block_wf(b2) by {
                assert(pre.block_wf(b2));
                assert(post.block_data(b2) == pre.block_data(b2));
                assert forall|k2: int| 0 <= k2 < post.args_seq(b2).len() implies post.valid_value(
                    #[trigger] post.args_seq(b2)[k2],
                ) && post.kind_of(post.args_seq(b2)[k2]) == ValueType::Arg(b2) by {
                    assert(pre.args_seq(b2)[k2] == post.args_seq(b2)[k2]);
                    assert(pre.valid_value(pre.args_seq(b2)[k2]));
                    assert(pre.kind_of(pre.args_seq(b2)[k2]) == ValueType::Arg(b2));
                    assert(pre.args_seq(b2).contains(pre.args_seq(b2)[k2]));
                    assert(post.args_seq(b2)[k2] != v);
                }
                assert forall|k2: int| 0 <= k2 < post.reads_seq(b2).len() implies post.valid_value(
                    #[trigger] post.reads_seq(b2)[k2],
                ) by {
                    assert(pre.valid_value(pre.reads_seq(b2)[k2]));
                }
            }
            assert forall|v2: Value| post.valid_value(v2) implies #[trigger] post.value_wf(v2) by {
                assert(pre.value_wf(v2));
                if v2 == v {
                    assert(post.kind_of(v2) == ValueType::Alias(target));
                }
            }
            assert forall|b2: Block| post.valid_block(b2) implies #[trigger] post.edges_wf(b2) by {
                assert(pre.edges_wf(b2));
                assert(pre.block_wf(b2));
                assert forall|i2: int|
                    0 <= i2 < post.reads_seq(b2).len() implies match post.kind_of(
                    #[trigger] post.reads_seq(b2)[i2],
                ) {
                    ValueType::Block(s) => post.succs_seq(b2).contains(s),
                    _ => true,
                } by {
                    let w = post.reads_seq(b2)[i2];
                    if w == v {
                        assert(post.kind_of(w) is Alias);
                    } else {
                        assert(pre.valid_value(pre.reads_seq(b2)[i2]));
                        assert(post.kind_of(w) == pre.kind_of(w));
                        match pre.kind_of(w) {
                            ValueType::Block(s) => {
                                assert(pre.succs_seq(b2).contains(s));
                            },
                            _ => {},
                        }
                    }
                }
                assert forall|s: Block| #[trigger] post.succs_seq(b2).contains(s) implies post.is_block_read(
                    b2,
                    s,
                ) && post.preds_seq(s).contains(b2) by {
                    assert(pre.succs_seq(b2).contains(s));
                    assert(pre.is_block_read(b2, s));
                    assert(pre.valid_block(s));
                    let q = choose|q: int|
                        0 <= q < pre.reads_seq(b2).len() && pre.kind_of(
                            #[trigger] pre.reads_seq(b2)[q],
                        ) == ValueType::Block(s);
                    assert(pre.reads_seq(b2)[q] != v);
                    assert(post.kind_of(post.reads_seq(b2)[q]) == ValueType::Block(s));
                    assert(pre.preds_seq(s).contains(b2));
                    assert(post.preds_seq(s) == pre.preds_seq(s));
                }
                assert forall|p: Block| #[trigger] post.preds_seq(b2).contains(p) implies post.succs_seq(
                    p,
                ).contains(b2) by {
                    assert(pre.preds_seq(b2).contains(p));
                    assert(pre.valid_block(p));
                    assert(pre.succs_seq(p).contains(b2));
                    assert(post.succs_seq(p) == pre.succs_seq(p));
                }
            }
            assert forall|b2: Block| post.valid_block(b2) implies post.valid_value(
                #[trigger] post.block_value_of(b2),
            ) && post.kind_of(post.block_value_of(b2)) == ValueType::Block(b2) by {
                assert(pre.valid_value(pre.block_value_of(b2)));
                assert(pre.kind_of(pre.block_value_of(b2)) == ValueType::Block(b2));
                assert(post.block_value_of(b2) != v);
            }
            assert(post.block_values_wf());
            assert(post.const_cache_wf()) by {
                assert forall|i2: int| 0 <= i2 < post.constant_values@.len() implies post.valid_value(
                    #[trigger] post.constant_values@[i2],
                ) && post.kind_of(post.constant_values@[i2]) is Constant by {
                    assert(pre.valid_value(pre.constant_values@[i2]));
                    assert(pre.kind_of(pre.constant_values@[i2]) is Constant);
                    assert(pre.constant_values@[i2] != v);
                }
                assert forall|v1: Value, v2: Value|
                    post.valid_value(v1) && post.valid_value(v2) && #[trigger] post.kind_of(v1)
                        == #[trigger] post.kind_of(v2) && post.kind_of(v1) is Constant implies v1
                    == v2 by {
                    assert(v1 != v && v2 != v);
                    assert(pre.kind_of(v1) == post.kind_of(v1));
                    assert(pre.kind_of(v2) == post.kind_of(v2));
                }
            }
        }
        crate::fun::WriteToken(v)
    }
}

impl Function {
    /// Store a pattern clause in the function's pattern container.
    pub fn clause_insert(&mut self, pattern: crate::pattern::PatternNode) -> (r:
        crate::pattern::PatternClause)
        requires
            old(self).wf(),
            old(self).graph_wf(),
        ensures
            final(self).wf(),
            final(self).graph_wf(),
            final(self).blocks_retained(*old(self)),
            final(self).values_retained(*old(self)),
            final(self).misc_retained(*old(self)),
            final(self).blocks@.len() == old(self).blocks@.len(),
            final(self).values@.len() == old(self).values@.len(),
            final(self).pattern_container.valid_clause(r),
            final(self).pattern_container.clause_pattern(r) == pattern,
            final(self).pattern_container.clause_binds(r) == pattern.bind_count(),
            final(self).clause_pool == old(self).clause_pool,
            final(self).value_pool == old(self).value_pool,
    {
        let r = self.pattern_container.clause_insert(pattern);
        proof {
            let pre = *old(self);
            let post = *self;
            assert forall|b2: Block| pre.valid_block(b2) implies #[trigger] post.same_block_shape(
                pre,
                b2,
            ) by {
                assert(pre.block_wf(b2));
                assert(post.block_data(b2) == pre.block_data(b2));
            }
            assert forall|b2: Block| post.valid_block(b2) implies #[trigger] post.block_wf(b2) by {
                assert(pre.block_wf(b2));
                assert(post.block_data(b2) == pre.block_data(b2));
                assert(post.clause_pool.data@.subrange(0, pre.clause_pool.data@.len() as int)
                    =~= pre.clause_pool.data@);
                Self::lemma_block_wf_transfer(pre, post, b2);
            }
            assert forall|v2: Value| post.valid_value(v2) implies #[trigger] post.value_wf(v2) by {
                assert(pre.value_wf(v2));
            }
            Self::lemma_edges_transfer(pre, post);
            assert forall|b2: Block| post.valid_block(b2) implies #[trigger] post.edges_wf(b2) by {}
            assert(post.block_values_wf()) by {
                assert forall|b2: Block| post.valid_block(b2) implies post.valid_value(
                    #[trigger] post.block_value_of(b2),
                ) && post.kind_of(post.block_value_of(b2)) == ValueType::Block(b2) by {
                    assert(pre.valid_value(pre.block_value_of(b2)));
                    assert(pre.kind_of(pre.block_value_of(b2)) == ValueType::Block(b2));
                }
            }
            assert(post.const_cache_wf()) by {
                assert forall|i2: int| 0 <= i2 < post.constant_values@.len() implies post.valid_value(
                    #[trigger] post.constant_values@[i2],
                ) && post.kind_of(post.constant_values@[i2]) is Constant by {
                    assert(pre.valid_value(pre.constant_values@[i2]));
                    assert(pre.kind_of(pre.constant_values@[i2]) is Constant);
                }
                assert(post.constant_values@.no_duplicates());
                assert forall|v1: Value, v2: Value|
                    post.valid_value(v1) && post.valid_value(v2) && #[trigger] post.kind_of(v1)
                        == #[trigger] post.kind_of(v2) && post.kind_of(v1) is Constant implies v1
                    == v2 by {
                    assert(pre.kind_of(v1) == post.kind_of(v1));
                    assert(pre.kind_of(v2) == post.kind_of(v2));
                }
            }
        }
        r
    }

    /// Intern a list of clause handles into the clause pool.
    pub fn clause_list_intern(&mut self, clauses: &Vec<crate::pattern::PatternClause>) -> (r:
        ListHandle)
        requires
            old(self).wf(),
            old(self).graph_wf(),
        ensures
            final(self).wf(),
            final(self).graph_wf(),
            final(self).blocks_retained(*old(self)),
            final(self).values_retained(*old(self)),
            final(self).misc_retained(*old(self)),
            final(self).blocks@.len() == old(self).blocks@.len(),
            final(self).values@.len() == old(self).values@.len(),
            final(self).clause_pool.list_wf(r),
            final(self).clause_pool.list_view(r) == clauses@,
            final(self).pattern_container == old(self).pattern_container,
            final(self).value_pool == old(self).value_pool,
    {
        let r = self.clause_pool.intern(clauses);
        proof {
            let pre = *old(self);
            let post = *self;
            assert(post.clause_pool.extends(pre.clause_pool));
            assert forall|b2: Block| pre.valid_block(b2) implies #[trigger] post.same_block_shape(
                pre,
                b2,
            ) by {
                assert(pre.block_wf(b2));
                assert(post.block_data(b2) == pre.block_data(b2));
            }
            assert forall|b2: Block| post.valid_block(b2) implies #[trigger] post.block_wf(b2) by {
                assert(pre.block_wf(b2));
                assert(post.block_data(b2) == pre.block_data(b2));
                Self::lemma_block_wf_transfer(pre, post, b2);
            }
            assert forall|v2: Value| post.valid_value(v2) implies #[trigger] post.value_wf(v2) by {
                assert(pre.value_wf(v2));
            }
            Self::lemma_edges_transfer(pre, post);
            assert forall|b2: Block| post.valid_block(b2) implies #[trigger] post.edges_wf(b2) by {}
            assert(post.block_values_wf()) by {
                assert forall|b2: Block| post.valid_block(b2) implies post.valid_value(
                    #[trigger] post.block_value_of(b2),
                ) && post.kind_of(post.block_value_of(b2)) == ValueType::Block(b2) by {
                    assert(pre.valid_value(pre.block_value_of(b2)));
                    assert(pre.kind_of(pre.block_value_of(b2)) == ValueType::Block(b2));
                }
            }
            assert(post.const_cache_wf()) by {
                assert forall|i2: int| 0 <= i2 < post.constant_values@.len() implies post.valid_value(
                    #[trigger] post.constant_values@[i2],
                ) && post.kind_of(post.constant_values@[i2]) is Constant by {
                    assert(pre.valid_value(pre.constant_values@[i2]));
                    assert(pre.kind_of(pre.constant_values@[i2]) is Constant);
                }
                assert(post.constant_values@.no_duplicates());
                assert forall|v1: Value, v2: Value|
                    post.valid_value(v1) && post.valid_value(v2) && #[trigger] post.kind_of(v1)
                        == #[trigger] post.kind_of(v2) && post.kind_of(v1) is Constant implies v1
                    == v2 by {
                    assert(pre.kind_of(v1) == post.kind_of(v1));
                    assert(pre.kind_of(v2) == post.kind_of(v2));
                }
            }
        }
        r
    }
}

} // verus!
