//! The structural invariants and pass laws of the block graph, stated
//! once, as facts a reader can check against the contracts that imply
//! them.

use vstd::prelude::*;
use crate::fun::{Block, Dialect, Function, Value, ValueType};
use crate::op::OpKind;

verus! {

/// The successor set of a block holds exactly the blocks that appear as
/// block-kind operands of its op.
pub proof fn lemma_successors_are_block_reads(f: Function, b: Block)
    requires
        f.wf(),
        f.graph_wf(),
        f.valid_block(b),
    ensures
        forall|s: Block| #[trigger] f.succs_seq(b).contains(s) <==> f.is_block_read(b, s),
{
    assert(f.edges_wf(b));
    assert forall|s: Block| f.is_block_read(b, s) implies #[trigger] f.succs_seq(b).contains(
        s,
    ) by {
        let i = choose|i: int|
            0 <= i < f.reads_seq(b).len() && f.kind_of(#[trigger] f.reads_seq(b)[i])
                == ValueType::Block(s);
        assert(f.succs_seq(b).contains(s));
    }
}

/// Every successor edge is mirrored by a predecessor edge, and the
/// other way round.
pub proof fn lemma_edge_symmetry(f: Function, b: Block, s: Block)
    requires
        f.wf(),
        f.graph_wf(),
        f.valid_block(b),
    ensures
        f.succs_seq(b).contains(s) ==> f.preds_seq(s).contains(b),
        f.preds_seq(b).contains(s) ==> f.succs_seq(s).contains(b),
{
    assert(f.edges_wf(b));
}

/// In a validated function, no value of kind `Alias` appears among the
/// reads or the arguments of any reachable block.
pub proof fn lemma_no_reachable_alias(
    f: Function,
    dialect: Dialect,
    b: Block,
    v: Value,
)
    requires
        f.wf(),
        f.valid_function(dialect),
        f.valid_block(b),
        f.reachable(b),
        f.reads_seq(b).contains(v) || f.args_seq(b).contains(v),
    ensures
        !(f.kind_of(v) is Alias),
{
    assert(f.block_valid_in(b, dialect));
    assert(f.block_wf(b));
    if f.reads_seq(b).contains(v) {
        let i = choose|i: int| 0 <= i < f.reads_seq(b).len() && f.reads_seq(b)[i] == v;
        assert(!(f.kind_of(f.reads_seq(b)[i]) is Alias));
    } else {
        let i = choose|i: int| 0 <= i < f.args_seq(b).len() && f.args_seq(b)[i] == v;
        assert(f.kind_of(f.args_seq(b)[i]) == ValueType::Arg(b));
    }
}

/// A block's arguments are exactly values of kind `Arg` of that block,
/// without repetition, and no other block lists them among its
/// parameters.
pub proof fn lemma_args_own_block(f: Function, b: Block)
    requires
        f.wf(),
        f.valid_block(b),
    ensures
        forall|i: int|
            0 <= i < f.args_seq(b).len() ==> f.kind_of(#[trigger] f.args_seq(b)[i])
                == ValueType::Arg(b),
        f.args_seq(b).no_duplicates(),
        forall|b2: Block, i: int|
            #![trigger f.args_seq(b2).contains(f.args_seq(b)[i])]
            f.valid_block(b2) && b2 != b && 0 <= i < f.args_seq(b).len() ==> !f.args_seq(
                b2,
            ).contains(f.args_seq(b)[i]),
{
    assert(f.block_wf(b));
    assert forall|b2: Block, i: int|
        #![trigger f.args_seq(b2).contains(f.args_seq(b)[i])]
        f.valid_block(b2) && b2 != b && 0 <= i < f.args_seq(b).len() implies !f.args_seq(
        b2,
    ).contains(f.args_seq(b)[i]) by {
        assert(f.block_wf(b2));
        let v = f.args_seq(b)[i];
        assert(f.kind_of(v) == ValueType::Arg(b));
        if f.args_seq(b2).contains(v) {
            let j = choose|j: int| 0 <= j < f.args_seq(b2).len() && f.args_seq(b2)[j] == v;
            assert(f.kind_of(f.args_seq(b2)[j]) == ValueType::Arg(b2));
        }
    }
}

/// Depth-first search and post-order depth-first search from the entry
/// visit the same set: precisely the reachable blocks. The two
/// traversals' contracts each pin their visited set to the reachable
/// set, so the sets agree.
pub proof fn lemma_traversals_agree(f: Function, r1: Seq<Block>, r2: Seq<Block>)
    requires
        forall|b: Block| #[trigger] r1.contains(b) ==> f.valid_block(b) && f.reachable(b),
        forall|b: Block| f.valid_block(b) && f.reachable(b) ==> #[trigger] r1.contains(b),
        forall|b: Block| #[trigger] r2.contains(b) ==> f.valid_block(b) && f.reachable(b),
        forall|b: Block| f.valid_block(b) && f.reachable(b) ==> #[trigger] r2.contains(b),
    ensures
        forall|b: Block| r1.contains(b) <==> r2.contains(b),
{
}

/// Validation is a judgement of the function alone: any two runs of the
/// validator on one unchanged function succeed or fail together.
pub proof fn lemma_validation_idempotent(
    f: Function,
    dialect: Dialect,
    r1: Result<(), crate::validate::ValidationError>,
    r2: Result<(), crate::validate::ValidationError>,
)
    requires
        r1 is Ok <==> f.valid_function(dialect),
        r2 is Ok <==> f.valid_function(dialect),
    ensures
        r1 is Ok <==> r2 is Ok,
{
}

/// After branch simplification, a conditional whose condition was the
/// atom `true` has exactly the true arm's block as its successor (and
/// symmetrically for `false`, with the other arm).
pub proof fn lemma_branch_selects_arm(pre: Function, post: Function, b: Block, s: Block)
    requires
        post.wf(),
        post.graph_wf(),
        post.valid_block(b),
        Function::branch_simplified(pre, post, b),
        pre.op_of(b) == Some(OpKind::IfBool),
        pre.reads_seq(b).len() == 3,
        pre.is_bool_const(pre.reads_seq(b)[0], true),
        post.kind_of(pre.reads_seq(b)[1]) == ValueType::Block(s),
    ensures
        post.op_of(b) == Some(OpKind::CallFlow),
        forall|s2: Block| #[trigger] post.succs_seq(b).contains(s2) <==> s2 == s,
{
    assert(post.reads_seq(b) == seq![pre.reads_seq(b)[1]]);
    assert(post.edges_wf(b));
    assert forall|s2: Block| #[trigger] post.succs_seq(b).contains(s2) implies s2 == s by {
        assert(post.is_block_read(b, s2));
        let i = choose|i: int|
            0 <= i < post.reads_seq(b).len() && post.kind_of(#[trigger] post.reads_seq(b)[i])
                == ValueType::Block(s2);
        assert(i == 0);
        assert(post.reads_seq(b)[0] == pre.reads_seq(b)[1]);
    }
    assert(post.succs_seq(b).contains(s)) by {
        assert(post.kind_of(post.reads_seq(b)[0]) == ValueType::Block(s));
    }
}

/// After branch simplification and tail-call promotion, a surviving
/// three-operand conditional cannot sit on a constant condition or on
/// two equal arms: simplification would have turned it into a jump, and
/// promotion never makes conditionals. Together with the pass chain the
/// pipeline carries, no branch remains at a constant-condition site.
pub proof fn lemma_no_constant_branch_survives(f1: Function, f2: Function, f3: Function, b: Block)
    requires
        crate::pass::branches_simplified(f1, f2),
        crate::pass::tails_promoted(f2, f3),
        f1.valid_block(b),
        f3.op_of(b) == Some(OpKind::IfBool),
        f1.op_of(b) == Some(OpKind::IfBool),
        f1.reads_seq(b).len() == 3,
    ensures
        !f1.is_bool_const(f1.reads_seq(b)[0], true),
        !f1.is_bool_const(f1.reads_seq(b)[0], false),
        f1.reads_seq(b)[1] != f1.reads_seq(b)[2],
        f3.reads_seq(b) == f1.reads_seq(b),
{
    assert(Function::branch_simplified(f1, f2, b));
    assert(Function::tail_promoted(f2, f3, b));
}

/// Tail-call promotion preserves the promoted call's callee and its
/// argument count: the tail call invokes the same callee with the same
/// arguments the returning call passed.
pub proof fn lemma_promotion_preserves_call(pre: Function, post: Function, b: Block)
    requires
        Function::tail_promoted(pre, post, b),
        pre.op_of(b) == Some(OpKind::Call),
        pre.reads_seq(b).len() >= 3,
        pre.is_degenerate_ret(pre.reads_seq(b)[0]),
    ensures
        post.op_of(b) == Some(OpKind::CallFlow),
        post.reads_seq(b)[0] == pre.reads_seq(b)[2],
        post.reads_seq(b).len() == pre.reads_seq(b).len() - 2,
        forall|i: int|
            0 <= i < post.reads_seq(b).len() ==> #[trigger] post.reads_seq(b)[i] == pre.reads_seq(
                b,
            )[i + 2],
{
    assert(post.reads_seq(b) == pre.reads_seq(b).subrange(2, pre.reads_seq(b).len() as int));
}

} // verus!
