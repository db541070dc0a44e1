//! The per-function block/value graph.
//!
//! A function owns a pool of blocks, a pool of values, interned operand
//! lists, pooled predecessor/successor sets, and the pattern and constant
//! containers. Handles are dense integers, meaningful only within the
//! function that owns them; they are appended monotonically and never
//! recycled.

use vstd::prelude::*;
use crate::constant::{AtomicTerm, Const, ConstantContainer};
use crate::op::OpKind;
use crate::pattern::{PatternClause, PatternContainer};
use crate::pool::{BlockSetPool, ListHandle, ListPool, SetHandle};
use crate::{FunctionIdent, Span};

verus! {

/// A basic block, invoked as a first-class continuation.
#[derive(Copy, Clone, Debug, PartialEq, Eq, Hash, Structural)]
pub struct Block(pub usize);

/// A value: a block argument, a block reference, a constant or an alias.
#[derive(Copy, Clone, Debug, PartialEq, Eq, Hash, Structural)]
pub struct Value(pub usize);

/// Reference to another function, local to the owning function's pool.
#[derive(Copy, Clone, Debug, PartialEq, Eq, Hash, Structural)]
pub struct FunRef(pub usize);

/// The kind of a value. Every value has exactly one of these four kinds.
#[derive(Copy, Clone, Debug, PartialEq, Eq, Structural)]
pub enum ValueType {
    /// Argument of the given block.
    Arg(Block),
    /// First-class reference to the given block.
    Block(Block),
    /// A literal in the function's constant container.
    Constant(Const),
    /// Forwarding placeholder for a rewritten value. Must never appear in
    /// the reads or arguments of a reachable block.
    Alias(Value),
}

/// Token returned when a value's definition is rewritten to an alias;
/// it names the value that was written over.
#[derive(Debug)]
pub struct WriteToken(pub Value);

/// Well-formedness level of a function graph.
#[derive(Copy, Clone, Debug, PartialEq, Eq, Hash, Structural)]
pub enum Dialect {
    /// All operations allowed, including the pattern-match construct.
    High,
    /// High minus the pattern-match construct.
    Normal,
    /// Continuation-passing style: Normal minus returning calls.
    CPS,
}

/// Keys of block attributes.
#[derive(Copy, Clone, Debug, PartialEq, Eq, Hash, Structural)]
pub enum AttributeKey {
    Continuation,
}

/// Values of block attributes.
#[derive(Copy, Clone, Debug, PartialEq, Eq, Structural)]
pub enum AttributeValue {
    NoValue,
}

/// Everything one block stores.
#[derive(Clone, Debug)]
pub struct BlockData {
    /// The block's formal parameters, in order.
    pub arguments: ListHandle,
    /// The block's operation; `None` while under construction.
    pub op: Option<OpKind>,
    /// The op's operands, in order.
    pub reads: ListHandle,
    /// Source span of the block.
    pub span: Span,
    /// Blocks with an edge into this one.
    pub predecessors: SetHandle,
    /// Blocks this one has an edge to.
    pub successors: SetHandle,
}

/// Everything one value stores.
#[derive(Clone, Debug)]
pub struct ValueData {
    pub kind: ValueType,
    pub span: Span,
}

/// The function graph: pools, entry block, and auxiliary indices.
pub struct Function {
    pub ident: FunctionIdent,
    pub span: Span,
    pub blocks: Vec<BlockData>,
    pub values: Vec<ValueData>,
    pub fun_refs: Vec<FunctionIdent>,
    pub entry_block: Option<Block>,
    pub value_pool: ListPool<Value>,
    pub clause_pool: ListPool<PatternClause>,
    pub block_set_pool: BlockSetPool,
    pub pattern_container: PatternContainer,
    pub constant_container: ConstantContainer,
    /// Cache: every value whose kind is `Constant(_)`.
    pub constant_values: Vec<Value>,
    /// Cache: for each block, its self-reference value of kind `Block(_)`.
    pub block_values: Vec<Value>,
}

impl Function {
    pub open spec fn n_blocks(self) -> int {
        self.blocks@.len() as int
    }

    pub open spec fn n_values(self) -> int {
        self.values@.len() as int
    }

    pub open spec fn valid_block(self, b: Block) -> bool {
        b.0 < self.blocks@.len()
    }

    pub open spec fn valid_value(self, v: Value) -> bool {
        v.0 < self.values@.len()
    }

    pub open spec fn valid_fun_ref(self, f: FunRef) -> bool {
        f.0 < self.fun_refs@.len()
    }

    pub open spec fn block_data(self, b: Block) -> BlockData {
        self.blocks@[b.0 as int]
    }

    /// The kind of a value.
    pub open spec fn kind_of(self, v: Value) -> ValueType {
        self.values@[v.0 as int].kind
    }

    /// The block's formal parameters, in order.
    pub open spec fn args_seq(self, b: Block) -> Seq<Value> {
        self.value_pool.list_view(self.block_data(b).arguments)
    }

    /// The operands of the block's op, in order.
    pub open spec fn reads_seq(self, b: Block) -> Seq<Value> {
        self.value_pool.list_view(self.block_data(b).reads)
    }

    /// The block's successors, in insertion order.
    pub open spec fn succs_seq(self, b: Block) -> Seq<Block> {
        self.block_set_pool.set_seq(self.block_data(b).successors)
    }

    /// The block's predecessors, in insertion order.
    pub open spec fn preds_seq(self, b: Block) -> Seq<Block> {
        self.block_set_pool.set_seq(self.block_data(b).predecessors)
    }

    pub open spec fn op_of(self, b: Block) -> Option<OpKind> {
        self.block_data(b).op
    }

    /// The self-reference value of a block.
    pub open spec fn block_value_of(self, b: Block) -> Value {
        self.block_values@[b.0 as int]
    }

    /// Handle validity of one value's kind.
    pub open spec fn value_wf(self, v: Value) -> bool {
        match self.kind_of(v) {
            ValueType::Arg(b) => self.valid_block(b),
            ValueType::Block(b) => self.valid_block(b) && self.block_value_of(b) == v,
            ValueType::Constant(c) => self.constant_container.valid_const(c)
                && self.constant_values@.contains(v),
            ValueType::Alias(v2) => self.valid_value(v2),
        }
    }

    /// Handle validity of the op payload of one block.
    pub open spec fn op_payload_wf(self, b: Block) -> bool {
        match self.block_data(b).op {
            Some(OpKind::Case { clauses }) => self.clause_pool.list_wf(clauses) && forall|i: int|
                0 <= i < self.clause_pool.list_view(clauses).len()
                    ==> self.pattern_container.valid_clause(
                    #[trigger] self.clause_pool.list_view(clauses)[i],
                ),
            Some(OpKind::CaptureFunction(f)) => self.valid_fun_ref(f),
            Some(OpKind::BindClosure { fun, .. }) => self.valid_fun_ref(fun),
            _ => true,
        }
    }

    /// Handle validity of everything one block stores.
    pub open spec fn block_wf(self, b: Block) -> bool {
        let bd = self.block_data(b);
        &&& self.value_pool.list_wf(bd.arguments)
        &&& self.value_pool.list_wf(bd.reads)
        &&& bd.predecessors.idx == 2 * b.0
        &&& bd.successors.idx == 2 * b.0 + 1
        &&& forall|i: int|
            0 <= i < self.args_seq(b).len() ==> self.valid_value(#[trigger] self.args_seq(b)[i])
                && self.kind_of(self.args_seq(b)[i]) == ValueType::Arg(b)
        &&& self.args_seq(b).no_duplicates()
        &&& forall|i: int|
            0 <= i < self.reads_seq(b).len() ==> self.valid_value(#[trigger] self.reads_seq(b)[i])
        &&& forall|i: int|
            0 <= i < self.succs_seq(b).len() ==> self.valid_block(#[trigger] self.succs_seq(b)[i])
        &&& forall|i: int|
            0 <= i < self.preds_seq(b).len() ==> self.valid_block(#[trigger] self.preds_seq(b)[i])
        &&& self.op_payload_wf(b)
        &&& bd.op is None ==> self.reads_seq(b).len() == 0 && self.succs_seq(b).len() == 0
    }

    /// The constant-value cache lists exactly the constants, once each,
    /// and no two values share a constant.
    pub open spec fn const_cache_wf(self) -> bool {
        &&& forall|i: int|
            0 <= i < self.constant_values@.len() ==> self.valid_value(
                #[trigger] self.constant_values@[i],
            ) && self.kind_of(self.constant_values@[i]) is Constant
        &&& self.constant_values@.no_duplicates()
        &&& forall|v1: Value, v2: Value|
            self.valid_value(v1) && self.valid_value(v2) && #[trigger] self.kind_of(v1)
                == #[trigger] self.kind_of(v2) && self.kind_of(v1) is Constant ==> v1 == v2
    }

    /// The block-value cache maps each block to its self-reference value.
    pub open spec fn block_values_wf(self) -> bool {
        &&& self.block_values@.len() == self.blocks@.len()
        &&& forall|b: Block|
            self.valid_block(b) ==> self.valid_value(#[trigger] self.block_value_of(b))
                && self.kind_of(self.block_value_of(b)) == ValueType::Block(b)
    }

    /// Handle well-formedness of the whole function: every handle anything
    /// stores points inside the pool it belongs to.
    pub open spec fn wf(self) -> bool {
        &&& self.block_set_pool.pool_wf()
        &&& self.block_set_pool.sets@.len() == 2 * self.blocks@.len()
        &&& forall|b: Block| self.valid_block(b) ==> #[trigger] self.block_wf(b)
        &&& forall|v: Value| self.valid_value(v) ==> #[trigger] self.value_wf(v)
        &&& match self.entry_block {
            Some(b) => self.valid_block(b),
            None => true,
        }
        &&& self.block_values_wf()
        &&& self.const_cache_wf()
        &&& self.pattern_container.wf()
        &&& self.constant_container.wf()
    }

    /// Block `s` appears as a block-kind operand of `b`.
    pub open spec fn is_block_read(self, b: Block, s: Block) -> bool {
        exists|i: int|
            0 <= i < self.reads_seq(b).len() && self.kind_of(#[trigger] self.reads_seq(b)[i])
                == ValueType::Block(s)
    }

    /// The edge invariants of one block: the successor set holds exactly
    /// the blocks read as block values, and both edge endpoints agree.
    pub open spec fn edges_wf(self, b: Block) -> bool {
        &&& forall|i: int|
            0 <= i < self.reads_seq(b).len() ==> match self.kind_of(
                #[trigger] self.reads_seq(b)[i],
            ) {
                ValueType::Block(s) => self.succs_seq(b).contains(s),
                _ => true,
            }
        &&& forall|s: Block| #[trigger] self.succs_seq(b).contains(s) ==> self.is_block_read(b, s)
        &&& forall|s: Block|
            #[trigger] self.succs_seq(b).contains(s) ==> self.preds_seq(s).contains(b)
        &&& forall|p: Block| #[trigger] self.preds_seq(b).contains(p) ==> self.succs_seq(p).contains(b)
    }

    /// The edge invariants, for every block of the function.
    pub open spec fn graph_wf(self) -> bool {
        forall|b: Block| self.valid_block(b) ==> #[trigger] self.edges_wf(b)
    }

    /// A fresh, empty function.
    pub fn new(ident: FunctionIdent) -> (r: Function)
        ensures
            r.wf(),
            r.graph_wf(),
            r.blocks@.len() == 0,
            r.values@.len() == 0,
            r.entry_block is None,
            r.ident == ident,
            r.fun_refs@.len() == 0,
            r.constant_container.data@.len() == 0,
            r.pattern_container.clauses@.len() == 0,
            r.constant_values@.len() == 0,
            r.block_values@.len() == 0,
    {
        Function {
            ident,
            span: Span::dummy(),
            blocks: Vec::new(),
            values: Vec::new(),
            fun_refs: Vec::new(),
            entry_block: None,
            value_pool: ListPool::new(),
            clause_pool: ListPool::new(),
            block_set_pool: BlockSetPool::new(),
            pattern_container: PatternContainer::new(),
            constant_container: ConstantContainer::new(),
            constant_values: Vec::new(),
            block_values: Vec::new(),
        }
    }

    pub fn ident(&self) -> (r: &FunctionIdent)
        ensures
            *r == self.ident,
    {
        &self.ident
    }

    /// The entry block; a function under construction may not have one yet.
    pub fn block_entry(&self) -> (r: Block)
        requires
            self.entry_block is Some,
        ensures
            self.entry_block == Some(r),
    {
        self.entry_block.unwrap()
    }

    /// The kind of a value.
    pub fn value_kind(&self, value: Value) -> (r: &ValueType)
        requires
            self.valid_value(value),
        ensures
            *r == self.kind_of(value),
    {
        &self.values[value.0].kind
    }

    /// The kind of a value.
    pub fn value(&self, value: Value) -> (r: &ValueType)
        requires
            self.valid_value(value),
        ensures
            *r == self.kind_of(value),
    {
        &self.values[value.0].kind
    }

    pub fn value_is_constant(&self, value: Value) -> (r: bool)
        requires
            self.valid_value(value),
        ensures
            r == self.kind_of(value) is Constant,
    {
        match self.values[value.0].kind {
            ValueType::Constant(_) => true,
            _ => false,
        }
    }

    pub fn value_is_arg(&self, value: Value) -> (r: bool)
        requires
            self.valid_value(value),
        ensures
            r == self.kind_of(value) is Arg,
    {
        match self.values[value.0].kind {
            ValueType::Arg(_) => true,
            _ => false,
        }
    }

    /// If the value is a block argument, the block that defines it.
    pub fn value_arg_definition(&self, value: Value) -> (r: Option<Block>)
        requires
            self.valid_value(value),
        ensures
            r == match self.kind_of(value) {
                ValueType::Arg(b) => Some(b),
                _ => None::<Block>,
            },
    {
        match self.values[value.0].kind {
            ValueType::Arg(block) => Some(block),
            _ => None,
        }
    }

    /// If the value is a block reference, the referenced block.
    pub fn value_block(&self, value: Value) -> (r: Option<Block>)
        requires
            self.valid_value(value),
        ensures
            r == match self.kind_of(value) {
                ValueType::Block(b) => Some(b),
                _ => None::<Block>,
            },
    {
        match self.values[value.0].kind {
            ValueType::Block(block) => Some(block),
            _ => None,
        }
    }

    /// If the value is a constant, its handle.
    pub fn value_constant(&self, value: Value) -> (r: Option<Const>)
        requires
            self.valid_value(value),
        ensures
            r == match self.kind_of(value) {
                ValueType::Constant(c) => Some(c),
                _ => None::<Const>,
            },
    {
        match self.values[value.0].kind {
            ValueType::Constant(con) => Some(con),
            _ => None,
        }
    }

    /// The values whose kind is `Constant(_)`, one handle each.
    pub fn iter_constants(&self) -> (r: Vec<Value>)
        requires
            self.wf(),
        ensures
            r@ == self.constant_values@,
            forall|v: Value|
                self.valid_value(v) ==> (r@.contains(v) <==> self.kind_of(v) is Constant),
    {
        let mut out: Vec<Value> = Vec::new();
        let n = self.constant_values.len();
        let mut i: usize = 0;
        while i < n
            invariant
                n == self.constant_values@.len(),
                i <= n,
                out@ == self.constant_values@.subrange(0, i as int),
            decreases n - i,
        {
            let v_i = self.constant_values[i];
            out.push(v_i);
            proof {
                assert(self.constant_values@.subrange(0, i + 1) =~= self.constant_values@.subrange(
                    0,
                    i as int,
                ).push(self.constant_values@[i as int]));
            }
            i = i + 1;
        }
        proof {
            assert(self.constant_values@.subrange(0, n as int) =~= self.constant_values@);
            assert forall|v: Value|
                self.valid_value(v) implies (out@.contains(v) <==> self.kind_of(v) is Constant) by {
                if out@.contains(v) {
                    assert(self.value_wf(v));
                }
                if self.kind_of(v) is Constant {
                    assert(self.value_wf(v));
                }
            }
        }
        out
    }

    /// The block's formal parameters, in order.
    pub fn block_args(&self, block: Block) -> (r: Vec<Value>)
        requires
            self.wf(),
            self.valid_block(block),
        ensures
            r@ == self.args_seq(block),
    {
        proof {
            assert(self.block_wf(block));
        }
        self.value_pool.get_all(self.blocks[block.0].arguments)
    }

    /// The n-th formal parameter of the block, if there is one.
    pub fn block_arg_n(&self, block: Block, num: usize) -> (r: Option<Value>)
        requires
            self.wf(),
            self.valid_block(block),
        ensures
            r == if num < self.args_seq(block).len() {
                Some(self.args_seq(block)[num as int])
            } else {
                None::<Value>
            },
    {
        proof {
            assert(self.block_wf(block));
        }
        let l = self.blocks[block.0].arguments;
        if num < l.len {
            Some(self.value_pool.get(l, num))
        } else {
            None
        }
    }

    /// The operands of the block's op, in order.
    pub fn block_reads(&self, block: Block) -> (r: Vec<Value>)
        requires
            self.wf(),
            self.valid_block(block),
        ensures
            r@ == self.reads_seq(block),
    {
        proof {
            assert(self.block_wf(block));
        }
        self.value_pool.get_all(self.blocks[block.0].reads)
    }

    /// The block's op, if one has been assigned.
    pub fn block_kind(&self, block: Block) -> (r: Option<OpKind>)
        requires
            self.valid_block(block),
        ensures
            r == self.op_of(block),
    {
        self.blocks[block.0].op
    }

    pub fn block_span(&self, block: Block) -> (r: Span)
        requires
            self.valid_block(block),
        ensures
            r == self.block_data(block).span,
    {
        self.blocks[block.0].span
    }

    /// How many arguments the entry block takes.
    pub fn entry_arg_num(&self) -> (r: usize)
        requires
            self.wf(),
            self.entry_block is Some,
        ensures
            r == self.args_seq(self.entry_block.unwrap()).len(),
    {
        let entry = self.block_entry();
        proof {
            assert(self.block_wf(entry));
        }
        self.blocks[entry.0].arguments.len
    }

    /// The block's successors, in deterministic insertion order.
    pub fn block_successors(&self, block: Block) -> (r: Vec<Block>)
        requires
            self.wf(),
            self.valid_block(block),
        ensures
            r@ == self.succs_seq(block),
    {
        proof {
            assert(self.block_wf(block));
            assert(self.block_set_pool.set_wf(self.block_data(block).successors));
        }
        self.block_set_pool.members(self.blocks[block.0].successors)
    }

    /// The block's predecessors, in deterministic insertion order.
    pub fn block_predecessors(&self, block: Block) -> (r: Vec<Block>)
        requires
            self.wf(),
            self.valid_block(block),
        ensures
            r@ == self.preds_seq(block),
    {
        proof {
            assert(self.block_wf(block));
            assert(self.block_set_pool.set_wf(self.block_data(block).predecessors));
        }
        self.block_set_pool.members(self.blocks[block.0].predecessors)
    }

    pub fn pat(&self) -> (r: &PatternContainer)
        ensures
            *r == self.pattern_container,
    {
        &self.pattern_container
    }

    pub fn cons(&self) -> (r: &ConstantContainer)
        ensures
            *r == self.constant_container,
    {
        &self.constant_container
    }

    pub fn pattern_container(&self) -> (r: &PatternContainer)
        ensures
            *r == self.pattern_container,
    {
        &self.pattern_container
    }

    pub fn pattern_container_mut(&mut self) -> (r: &mut PatternContainer)
        ensures
            *r == old(self).pattern_container,
            *final(self) == (Function { pattern_container: *final(r), ..*old(self) }),
    {
        &mut self.pattern_container
    }

    /// Read the literal behind a constant-kind value.
    pub fn value_literal(&self, value: Value) -> (r: Option<&AtomicTerm>)
        requires
            self.wf(),
            self.valid_value(value),
        ensures
            r == match self.kind_of(value) {
                ValueType::Constant(c) => Some(&self.constant_container.term_of(c)),
                _ => None::<&AtomicTerm>,
            },
    {
        match self.values[value.0].kind {
            ValueType::Constant(con) => {
                proof {
                    assert(self.value_wf(value));
                }
                Some(self.constant_container.get(con))
            },
            _ => None,
        }
    }
}

} // verus!
