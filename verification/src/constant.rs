//! Interned storage for literal constants.
//!
//! A constant container owns every literal a function mentions; a `Const`
//! handle is a dense index into the container. Interning keeps at most one
//! copy of each literal, so two equal literals share one handle.

use vstd::prelude::*;

verus! {

/// Handle into a [`ConstantContainer`].
#[derive(Copy, Clone, Debug, PartialEq, Eq, Hash, Structural)]
pub struct Const(pub usize);

/// A literal constant term.
#[derive(Clone, Debug)]
pub enum AtomicTerm {
    /// The empty list.
    Nil,
    /// A signed integer literal.
    Int(i64),
    /// An atom, by its name.
    Atom(String),
}

impl AtomicTerm {
    /// Structural equality of literals: same variant, same payload.
    pub open spec fn term_eq(self, other: AtomicTerm) -> bool {
        match (self, other) {
            (AtomicTerm::Nil, AtomicTerm::Nil) => true,
            (AtomicTerm::Int(a), AtomicTerm::Int(b)) => a == b,
            (AtomicTerm::Atom(a), AtomicTerm::Atom(b)) => a@ == b@,
            _ => false,
        }
    }

    /// Decide literal equality.
    pub fn eq_term(&self, other: &AtomicTerm) -> (r: bool)
        ensures
            r == self.term_eq(*other),
    {
        match (self, other) {
            (AtomicTerm::Nil, AtomicTerm::Nil) => true,
            (AtomicTerm::Int(a), AtomicTerm::Int(b)) => *a == *b,
            (AtomicTerm::Atom(a), AtomicTerm::Atom(b)) => a.eq(b),
            _ => false,
        }
    }

    /// A deep copy whose contents equal the original's.
    pub fn duplicate(&self) -> (r: AtomicTerm)
        ensures
            r.term_eq(*self),
    {
        match self {
            AtomicTerm::Nil => AtomicTerm::Nil,
            AtomicTerm::Int(a) => AtomicTerm::Int(*a),
            AtomicTerm::Atom(a) => AtomicTerm::Atom(a.clone()),
        }
    }
}

/// Interned storage for the literal constants of one function.
pub struct ConstantContainer {
    pub data: Vec<AtomicTerm>,
}

impl ConstantContainer {
    pub open spec fn valid_const(self, c: Const) -> bool {
        c.0 < self.data@.len()
    }

    pub open spec fn term_of(self, c: Const) -> AtomicTerm {
        self.data@[c.0 as int]
    }

    /// No two entries hold equal literals.
    pub open spec fn wf(self) -> bool {
        forall|i: int, j: int|
            0 <= i < self.data@.len() && 0 <= j < self.data@.len() && (#[trigger] self.data@[i]).term_eq(
                #[trigger] self.data@[j],
            ) ==> i == j
    }

    pub fn new() -> (r: Self)
        ensures
            r.data@.len() == 0,
            r.wf(),
    {
        ConstantContainer { data: Vec::new() }
    }

    pub fn len(&self) -> (r: usize)
        ensures
            r == self.data@.len(),
    {
        self.data.len()
    }

    /// Read the literal behind a handle.
    pub fn get(&self, c: Const) -> (r: &AtomicTerm)
        requires
            self.valid_const(c),
        ensures
            *r == self.term_of(c),
    {
        &self.data[c.0]
    }

    /// Intern a literal: return the handle of an equal existing entry,
    /// or append the literal and return its fresh handle.
    pub fn intern(&mut self, term: AtomicTerm) -> (r: Const)
        requires
            old(self).wf(),
        ensures
            final(self).wf(),
            final(self).valid_const(r),
            final(self).term_of(r).term_eq(term),
            // the container only grows, and keeps what it had
            old(self).data@.len() <= final(self).data@.len(),
            forall|c: Const|
                old(self).valid_const(c) ==> final(self).valid_const(c) && final(self).term_of(c)
                    == old(self).term_of(c),
            // a handle equal to the term already present is returned unchanged
            forall|c: Const|
                old(self).valid_const(c) && old(self).term_of(c).term_eq(term) ==> r == c,
    {
        let n = self.data.len();
        let mut i: usize = 0;
        while i < n
            invariant
                n == self.data@.len(),
                i <= n,
                self.wf(),
                forall|j: int| 0 <= j < i ==> !(#[trigger] self.data@[j]).term_eq(term),
            decreases n - i,
        {
            if self.data[i].eq_term(&term) {
                return Const(i);
            }
            i = i + 1;
        }
        self.data.push(term);
        proof {
            assert(self.term_of(Const(n as usize)).term_eq(term)) by {
                assert(self.data@[n as int] == term);
                assert(term.term_eq(term));
            }
        }
        Const(n)
    }
}

} // verus!
