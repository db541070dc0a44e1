//! Validation of a function graph.
//!
//! The validator re-checks the structural invariants over every reachable
//! block: an op is assigned, the successor set holds exactly the blocks
//! read as block values and both edge endpoints agree, no reachable
//! operand is an alias, argument counts match arities where they are
//! statically known, and every op is allowed in the requested dialect
//! level. The entry block must exist and have no predecessors.

use vstd::prelude::*;
use crate::fun::{Block, Dialect, Function, ValueType};
use crate::op::OpKind;

verus! {

/// An invariant violation found by the validator, with the offending
/// entity. Finding one is fatal: it reports a compiler bug, not a
/// source defect.
#[derive(Copy, Clone, Debug, PartialEq, Eq, Structural)]
pub enum ValidationError {
    /// The function has no entry block.
    MissingEntry,
    /// The entry block has predecessors from within the function.
    EntryHasPredecessors,
    /// A reachable block has no op assigned.
    MissingOp { block: Block },
    /// A reachable block reads a value of kind `Alias`.
    AliasReachable { block: Block },
    /// A reachable block carries an op that the dialect level forbids.
    DialectMismatch { block: Block },
    /// An op's operand list does not have the shape its kind demands,
    /// or an argument count disagrees with a statically known arity.
    BadShape { block: Block },
    /// A block's successor or predecessor sets disagree with its reads.
    EdgeMismatch { block: Block },
}

impl Function {
    /// No operand of the block is an alias value.
    pub open spec fn no_alias_reads(self, b: Block) -> bool {
        forall|i: int|
            0 <= i < self.reads_seq(b).len() ==> !(self.kind_of(
                #[trigger] self.reads_seq(b)[i],
            ) is Alias)
    }

    /// The operand list has the shape the op kind demands, and argument
    /// counts match arities that are statically known.
    pub open spec fn op_shape_ok(self, b: Block) -> bool {
        let rs = self.reads_seq(b);
        match self.op_of(b) {
            None => false,
            Some(op) => match op {
                OpKind::CallFlow => rs.len() >= 1 && (match self.kind_of(rs[0]) {
                    ValueType::Block(t) => rs.len() - 1 == self.args_seq(t).len(),
                    _ => true,
                }),
                OpKind::Call => rs.len() >= 3,
                OpKind::IfBool => rs.len() == 3,
                OpKind::Case { clauses } => rs.len() == 1 + self.clause_pool.list_view(
                    clauses,
                ).len() && (forall|i: int|
                    1 <= i < rs.len() ==> (match self.kind_of(#[trigger] rs[i]) {
                        ValueType::Block(t) => self.args_seq(t).len()
                            == self.pattern_container.clause_binds(
                            self.clause_pool.list_view(clauses)[i - 1],
                        ),
                        _ => false,
                    })),
                OpKind::CaptureFunction(_) => rs.len() == 1,
                OpKind::BindClosure { .. } => rs.len() >= 1,
                OpKind::MakeTuple => rs.len() >= 1,
                OpKind::MakeCons => rs.len() == 3,
                OpKind::Unreachable => rs.len() == 0,
            },
        }
    }

    /// Everything the validator demands of one reachable block.
    pub open spec fn block_valid_in(self, b: Block, dialect: Dialect) -> bool {
        &&& self.op_of(b) is Some
        &&& self.op_of(b).unwrap().allowed_in(dialect)
        &&& self.op_shape_ok(b)
        &&& self.no_alias_reads(b)
        &&& self.edges_wf(b)
    }

    /// The whole validation judgement at a dialect level.
    pub open spec fn valid_function(self, dialect: Dialect) -> bool {
        &&& self.entry_block is Some
        &&& self.preds_seq(self.entry_block.unwrap()).len() == 0
        &&& forall|b: Block|
            self.valid_block(b) && self.reachable(b) ==> #[trigger] self.block_valid_in(b, dialect)
    }
}

/// Whether a block is in the list.
fn vec_contains_block(v: &Vec<Block>, x: Block) -> (r: bool)
    ensures
        r == v@.contains(x),
{
    let n = v.len();
    let mut i: usize = 0;
    while i < n
        invariant
            n == v@.len(),
            i <= n,
            forall|j: int| 0 <= j < i ==> v@[j] != x,
        decreases n - i,
    {
        if v[i] == x {
            return true;
        }
        i = i + 1;
    }
    false
}

/// Check the edge invariants of one block against its reads.
#[verifier::loop_isolation(false)]
fn check_edges(f: &Function, b: Block) -> (r: bool)
    requires
        f.wf(),
        f.valid_block(b),
    ensures
        r == f.edges_wf(b),
{
    let reads = f.block_reads(b);
    let succs = f.block_successors(b);
    let preds = f.block_predecessors(b);
    let n = reads.len();
    let mut i: usize = 0;
    // every block-kind operand is a successor
    while i < n
        invariant
            i <= n,
            n == f.reads_seq(b).len(),
            reads@ == f.reads_seq(b),
            succs@ == f.succs_seq(b),
            forall|j: int|
                0 <= j < i ==> (match f.kind_of(#[trigger] f.reads_seq(b)[j]) {
                    ValueType::Block(s) => f.succs_seq(b).contains(s),
                    _ => true,
                }),
        decreases n - i,
    {
        proof {
            assert(f.block_wf(b));
        }
        let v = reads[i];
        match f.value_kind(v) {
            ValueType::Block(s) => {
                if !vec_contains_block(&succs, *s) {
                    proof {
                        assert(f.kind_of(f.reads_seq(b)[i as int]) == ValueType::Block(*s));
                        assert(!f.edges_wf(b));
                    }
                    return false;
                }
            },
            _ => {},
        }
        i = i + 1;
    }
    // every successor is read as a block value and lists b among its
    // predecessors
    let m = succs.len();
    let mut k: usize = 0;
    while k < m
        invariant
            k <= m,
            m == f.succs_seq(b).len(),
            reads@ == f.reads_seq(b),
            succs@ == f.succs_seq(b),
            forall|j: int|
                0 <= j < k ==> f.is_block_read(b, #[trigger] f.succs_seq(b)[j]) && f.preds_seq(
                    f.succs_seq(b)[j],
                ).contains(b),
        decreases m - k,
    {
        proof {
            assert(f.block_wf(b));
        }
        let s = succs[k];
        // scan the reads for a block value naming s
        let mut found = false;
        let mut i2: usize = 0;
        while i2 < n
            invariant
                i2 <= n,
                n == f.reads_seq(b).len(),
                reads@ == f.reads_seq(b),
                found ==> f.is_block_read(b, s),
                !found ==> forall|j: int|
                    0 <= j < i2 ==> f.kind_of(#[trigger] f.reads_seq(b)[j]) != ValueType::Block(s),
            decreases n - i2,
        {
            proof {
                assert(f.block_wf(b));
            }
            let v = reads[i2];
            match f.value_kind(v) {
                ValueType::Block(s2) => {
                    if s2.0 == s.0 {
                        found = true;
                    }
                },
                _ => {},
            }
            i2 = i2 + 1;
        }
        if !found {
            proof {
                if f.is_block_read(b, s) {
                    let j = choose|j: int|
                        0 <= j < f.reads_seq(b).len() && f.kind_of(#[trigger] f.reads_seq(b)[j])
                            == ValueType::Block(s);
                    assert(f.kind_of(f.reads_seq(b)[j]) != ValueType::Block(s));
                }
                assert(f.succs_seq(b).contains(s));
                assert(!f.edges_wf(b));
            }
            return false;
        }
        let sp = f.block_predecessors(s);
        if !vec_contains_block(&sp, b) {
            proof {
                assert(f.succs_seq(b).contains(s));
                assert(!f.preds_seq(s).contains(b));
                assert(!f.edges_wf(b));
            }
            return false;
        }
        k = k + 1;
    }
    // every predecessor lists b among its successors
    let q = preds.len();
    let mut k2: usize = 0;
    while k2 < q
        invariant
            k2 <= q,
            q == f.preds_seq(b).len(),
            preds@ == f.preds_seq(b),
            forall|j: int|
                0 <= j < k2 ==> f.succs_seq(#[trigger] f.preds_seq(b)[j]).contains(b),
        decreases q - k2,
    {
        proof {
            assert(f.block_wf(b));
        }
        let p = preds[k2];
        let ps = f.block_successors(p);
        if !vec_contains_block(&ps, b) {
            proof {
                assert(f.preds_seq(b).contains(p));
                assert(!f.succs_seq(p).contains(b));
                assert(!f.edges_wf(b));
            }
            return false;
        }
        k2 = k2 + 1;
    }
    proof {
        assert(f.edges_wf(b)) by {
            assert forall|s: Block| #[trigger] f.succs_seq(b).contains(s) implies f.is_block_read(
                b,
                s,
            ) && f.preds_seq(s).contains(b) by {
                let j = choose|j: int| 0 <= j < f.succs_seq(b).len() && f.succs_seq(b)[j] == s;
                assert(f.is_block_read(b, f.succs_seq(b)[j]));
            }
            assert forall|p: Block| #[trigger] f.preds_seq(b).contains(p) implies f.succs_seq(
                p,
            ).contains(b) by {
                let j = choose|j: int| 0 <= j < f.preds_seq(b).len() && f.preds_seq(b)[j] == p;
                assert(f.succs_seq(f.preds_seq(b)[j]).contains(b));
            }
        }
    }
    true
}

/// Check the shape and arity constraints of one block's op.
#[verifier::loop_isolation(false)]
fn check_shape(f: &Function, b: Block) -> (r: bool)
    requires
        f.wf(),
        f.valid_block(b),
        f.op_of(b) is Some,
    ensures
        r == f.op_shape_ok(b),
{
    proof {
        assert(f.block_wf(b));
    }
    let reads = f.block_reads(b);
    let n = reads.len();
    match f.block_kind(b).unwrap() {
        OpKind::CallFlow => {
            if n < 1 {
                return false;
            }
            let v = reads[0];
            match f.value_kind(v) {
                ValueType::Block(t) => {
                    proof {
                        assert(f.value_wf(f.reads_seq(b)[0]));
                    }
                    let targs = f.block_args(*t);
                    n - 1 == targs.len()
                },
                _ => true,
            }
        },
        OpKind::Call => n >= 3,
        OpKind::IfBool => n == 3,
        OpKind::Case { clauses } => {
            proof {
                assert(f.op_payload_wf(b));
            }
            let cl = f.clause_pool.get_all(clauses);
            if n == 0 || n - 1 != cl.len() {
                return false;
            }
            let mut i: usize = 1;
            while i < n
                invariant
                    1 <= i <= n,
                    n == f.reads_seq(b).len(),
                    reads@ == f.reads_seq(b),
                    cl@ == f.clause_pool.list_view(clauses),
                    n == 1 + cl@.len(),
                    forall|j: int|
                        1 <= j < i ==> (match f.kind_of(#[trigger] f.reads_seq(b)[j]) {
                            ValueType::Block(t) => f.args_seq(t).len()
                                == f.pattern_container.clause_binds(
                                f.clause_pool.list_view(clauses)[j - 1],
                            ),
                            _ => false,
                        }),
                decreases n - i,
            {
                let v = reads[i];
                match f.value_kind(v) {
                    ValueType::Block(t) => {
                        proof {
                            assert(f.value_wf(f.reads_seq(b)[i as int]));
                            assert(f.pattern_container.valid_clause(
                                f.clause_pool.list_view(clauses)[i - 1],
                            ));
                        }
                        let targs_len = f.block_args(*t).len();
                        let binds = f.pattern_container.binds_of(cl[i - 1]);
                        if targs_len != binds {
                            return false;
                        }
                    },
                    _ => {
                        return false;
                    },
                }
                i = i + 1;
            }
            true
        },
        OpKind::CaptureFunction(_) => n == 1,
        OpKind::BindClosure { .. } => n >= 1,
        OpKind::MakeTuple => n >= 1,
        OpKind::MakeCons => n == 3,
        OpKind::Unreachable => n == 0,
    }
}

/// Validate a function at a dialect level. Returns `Ok` exactly when
/// every reachable block satisfies the structural invariants, carries an
/// op the dialect allows, reads no alias, and the entry block exists and
/// has no predecessors. Validation mutates nothing, so validating twice
/// reports the same result.
#[verifier::loop_isolation(false)]
pub fn validate(f: &Function, dialect: Dialect) -> (r: Result<(), ValidationError>)
    requires
        f.wf(),
    ensures
        r is Ok <==> f.valid_function(dialect),
        (match r {
            Ok(_) => true,
            Err(e) => match e {
                ValidationError::MissingEntry => f.entry_block is None,
                ValidationError::EntryHasPredecessors => f.entry_block is Some && f.preds_seq(
                    f.entry_block.unwrap(),
                ).len() > 0,
                ValidationError::MissingOp { block } => f.valid_block(block) && f.reachable(block)
                    && f.op_of(block) is None,
                ValidationError::AliasReachable { block } => f.valid_block(block) && f.reachable(
                    block,
                ) && !f.no_alias_reads(block),
                ValidationError::DialectMismatch { block } => f.valid_block(block) && f.reachable(
                    block,
                ) && f.op_of(block) is Some && !f.op_of(block).unwrap().allowed_in(dialect),
                ValidationError::BadShape { block } => f.valid_block(block) && f.reachable(block)
                    && !f.op_shape_ok(block),
                ValidationError::EdgeMismatch { block } => f.valid_block(block) && f.reachable(
                    block,
                ) && !f.edges_wf(block),
            },
        }),
{
    if f.entry_block.is_none() {
        return Err(ValidationError::MissingEntry);
    }
    let entry = f.block_entry();
    proof {
        assert(f.block_wf(entry));
    }
    if f.block_set_pool.size(f.blocks[entry.0].predecessors) > 0 {
        return Err(ValidationError::EntryHasPredecessors);
    }
    let order = f.dfs_iter();
    let n = order.len();
    let mut i: usize = 0;
    while i < n
        invariant
            i <= n,
            n == order@.len(),
            order@.no_duplicates(),
            forall|b: Block|
                #[trigger] order@.contains(b) ==> f.valid_block(b) && f.reachable(b),
            forall|b: Block|
                f.valid_block(b) && f.reachable(b) ==> #[trigger] order@.contains(b),
            forall|j: int| 0 <= j < i ==> f.block_valid_in(#[trigger] order@[j], dialect),
        decreases n - i,
    {
        let b = order[i];
        proof {
            assert(order@.contains(b));
            assert(f.block_wf(b));
        }
        if f.block_kind(b).is_none() {
            proof {
                assert(!f.block_valid_in(b, dialect));
            }
            return Err(ValidationError::MissingOp { block: b });
        }
        let op = f.block_kind(b).unwrap();
        let allowed = match op {
            OpKind::Case { .. } => matches!(dialect, Dialect::High),
            OpKind::Call => !matches!(dialect, Dialect::CPS),
            _ => true,
        };
        if !allowed {
            proof {
                assert(!f.block_valid_in(b, dialect));
            }
            return Err(ValidationError::DialectMismatch { block: b });
        }
        if !check_shape(f, b) {
            proof {
                assert(!f.block_valid_in(b, dialect));
            }
            return Err(ValidationError::BadShape { block: b });
        }
        // no reachable alias operands
        let reads = f.block_reads(b);
        let m = reads.len();
        let mut j: usize = 0;
        while j < m
            invariant
                j <= m,
                m == f.reads_seq(b).len(),
                reads@ == f.reads_seq(b),
                f.valid_block(b),
                f.reachable(b),
                forall|k: int|
                    0 <= k < j ==> !(f.kind_of(#[trigger] f.reads_seq(b)[k]) is Alias),
        decreases m - j,
        {
            proof {
                assert(f.block_wf(b));
            }
            let v = reads[j];
            match f.value_kind(v) {
                ValueType::Alias(_) => {
                    proof {
                        assert(f.kind_of(f.reads_seq(b)[j as int]) is Alias);
                        assert(!f.no_alias_reads(b));
                        assert(!f.block_valid_in(b, dialect));
                    }
                    return Err(ValidationError::AliasReachable { block: b });
                },
                _ => {},
            }
            j = j + 1;
        }
        if !check_edges(f, b) {
            proof {
                assert(!f.block_valid_in(b, dialect));
            }
            return Err(ValidationError::EdgeMismatch { block: b });
        }
        i = i + 1;
    }
    proof {
        assert forall|b: Block|
            f.valid_block(b) && f.reachable(b) implies #[trigger] f.block_valid_in(b, dialect) by {
            assert(order@.contains(b));
            let j = choose|j: int| 0 <= j < order@.len() && order@[j] == b;
            assert(f.block_valid_in(order@[j], dialect));
        }
    }
    Ok(())
}

} // verus!
