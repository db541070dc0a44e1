//! Interned storage for pattern-match clause trees.
//!
//! A pattern is a tree of nodes; a clause owns one pattern together with
//! the number of values the pattern binds. Clauses live in a container
//! owned by the enclosing function, addressed by dense handles.

use vstd::prelude::*;
use crate::constant::AtomicTerm;

verus! {

/// Handle into a [`PatternContainer`].
#[derive(Copy, Clone, Debug, PartialEq, Eq, Hash, Structural)]
pub struct PatternClause(pub usize);

/// One node of a pattern tree. Binders carry no name here: the clause's
/// binds are numbered in depth-first order of the `Bind` nodes.
#[derive(Debug)]
pub enum PatternNode {
    /// Matches anything, binds nothing.
    Wildcard,
    /// Matches anything and binds it.
    Bind,
    /// Matches a tuple of the given arity, element-wise.
    Tuple(Vec<PatternNode>),
    /// Matches a nonempty list cell.
    Cons(Box<PatternNode>, Box<PatternNode>),
    /// Matches one literal.
    Atomic(AtomicTerm),
}

impl PatternNode {
    /// How many values the pattern binds, in depth-first order.
    pub open spec fn bind_count(self) -> nat
        decreases self,
    {
        match self {
            PatternNode::Wildcard => 0,
            PatternNode::Bind => 1,
            PatternNode::Tuple(elems) => Self::bind_count_list(elems@),
            PatternNode::Cons(h, t) => h.bind_count() + t.bind_count(),
            PatternNode::Atomic(_) => 0,
        }
    }

    pub open spec fn bind_count_list(elems: Seq<PatternNode>) -> nat
        decreases elems,
    {
        if elems.len() == 0 {
            0
        } else {
            elems[0].bind_count() + Self::bind_count_list(elems.drop_first())
        }
    }
}

/// One stored clause: its pattern and the pattern's bind count.
#[derive(Debug)]
pub struct ClauseData {
    pub pattern: PatternNode,
    pub binds: usize,
}

/// Storage for the pattern clauses of one function.
pub struct PatternContainer {
    pub clauses: Vec<ClauseData>,
}

impl PatternContainer {
    pub open spec fn valid_clause(self, c: PatternClause) -> bool {
        c.0 < self.clauses@.len()
    }

    pub open spec fn clause_pattern(self, c: PatternClause) -> PatternNode {
        self.clauses@[c.0 as int].pattern
    }

    pub open spec fn clause_binds(self, c: PatternClause) -> nat {
        self.clauses@[c.0 as int].binds as nat
    }

    /// Every stored bind count agrees with its pattern.
    pub open spec fn wf(self) -> bool {
        forall|i: int|
            0 <= i < self.clauses@.len() ==> (#[trigger] self.clauses@[i]).binds
                == self.clauses@[i].pattern.bind_count()
    }

    pub fn new() -> (r: Self)
        ensures
            r.clauses@.len() == 0,
            r.wf(),
    {
        PatternContainer { clauses: Vec::new() }
    }

    pub fn len(&self) -> (r: usize)
        ensures
            r == self.clauses@.len(),
    {
        self.clauses.len()
    }

    /// The number of values the clause's pattern binds.
    pub fn binds_of(&self, c: PatternClause) -> (r: usize)
        requires
            self.valid_clause(c),
        ensures
            r == self.clause_binds(c),
    {
        self.clauses[c.0].binds
    }

    /// Store a clause, computing its bind count.
    pub fn clause_insert(&mut self, pattern: PatternNode) -> (r: PatternClause)
        requires
            old(self).wf(),
        ensures
            final(self).wf(),
            final(self).valid_clause(r),
            final(self).clause_pattern(r) == pattern,
            final(self).clause_binds(r) == pattern.bind_count(),
            final(self).clauses@.len() == old(self).clauses@.len() + 1,
            r.0 == old(self).clauses@.len(),
            forall|c: PatternClause|
                old(self).valid_clause(c) ==> final(self).valid_clause(c)
                    && final(self).clause_pattern(c) == old(self).clause_pattern(c)
                    && final(self).clause_binds(c) == old(self).clause_binds(c),
    {
        let mut marks: Vec<bool> = Vec::new();
        count_binds(&pattern, &mut marks);
        let binds = marks.len();
        let idx = self.clauses.len();
        self.clauses.push(ClauseData { pattern, binds });
        PatternClause(idx)
    }
}

/// Record one mark per bound value of the pattern, in depth-first order.
fn count_binds(pattern: &PatternNode, marks: &mut Vec<bool>)
    ensures
        final(marks)@.len() == old(marks)@.len() + pattern.bind_count(),
    decreases pattern,
{
    match pattern {
        PatternNode::Wildcard => {},
        PatternNode::Bind => {
            marks.push(true);
        },
        PatternNode::Tuple(elems) => {
            let n = elems.len();
            let mut i: usize = 0;
            proof {
                assert(elems@.skip(0) =~= elems@);
            }
            while i < n
                invariant
                    n == elems@.len(),
                    i <= n,
                    marks@.len() + PatternNode::bind_count_list(elems@.skip(i as int))
                        == old(marks)@.len() + pattern.bind_count(),
                    pattern == PatternNode::Tuple(*elems),
                decreases n - i,
            {
                proof {
                    assert(elems@.skip(i as int).drop_first() =~= elems@.skip(i + 1));
                    assert(elems@.skip(i as int)[0] == elems@[i as int]);
                    assert(PatternNode::bind_count_list(elems@.skip(i as int)) == elems@[i as int].bind_count()
                        + PatternNode::bind_count_list(elems@.skip(i + 1)));
                }
                count_binds(&elems[i], marks);
                i = i + 1;
            }
            proof {
                assert(elems@.skip(n as int) =~= Seq::<PatternNode>::empty());
            }
        },
        PatternNode::Cons(h, t) => {
            count_binds(h, marks);
            count_binds(t, marks);
        },
        PatternNode::Atomic(_) => {},
    }
}

} // verus!
