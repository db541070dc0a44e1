//! The high-level IR: a tree-shaped, scoped expression language with
//! named variables.
//!
//! A parsed module enters as named functions with clauses; the clauses
//! are merged into one expression body per function. SSA assignment then
//! gives every binder a unique dataflow identifier, lambda extraction
//! lifts closures into top-level functions, and lowering translates the
//! trees into the block graph.

use vstd::prelude::*;
use crate::constant::AtomicTerm;

verus! {

/// A variable with its surface name and, after SSA assignment, its
/// unique dataflow identifier. Zero means not yet assigned.
#[derive(Debug)]
pub struct AVariable {
    pub var: String,
    pub ssa: u64,
}

impl AVariable {
    /// A fresh, unassigned variable of the given name.
    pub fn new(var: String) -> (r: AVariable)
        ensures
            r.var == var,
            r.ssa == 0,
    {
        AVariable { var, ssa: 0 }
    }
}

/// A reference to a surface-visible function, with its dataflow
/// identifier once assigned.
#[derive(Debug)]
pub struct AFunctionName {
    pub name: String,
    pub arity: usize,
    pub ssa: u64,
}

impl AFunctionName {
    /// A fresh, unassigned function reference.
    pub fn new(name: String, arity: usize) -> (r: AFunctionName)
        ensures
            r.name == name,
            r.arity == arity,
            r.ssa == 0,
    {
        AFunctionName { name, arity, ssa: 0 }
    }
}

/// A pattern in the scoped expression tree; binders carry names.
#[derive(Debug)]
pub enum HirPattern {
    /// Matches anything, binds nothing.
    Wildcard,
    /// Matches anything and binds it to the variable.
    BindVar(AVariable),
    /// Matches a tuple element-wise.
    Tuple(Vec<HirPattern>),
    /// Matches a nonempty list cell.
    Cons(Box<HirPattern>, Box<HirPattern>),
    /// Matches one literal.
    Atomic(AtomicTerm),
}

impl HirPattern {
    /// The result of identifier assignment keeps the pattern's outermost
    /// constructor: the same variant, binder names, and child counts.
    pub open spec fn head_shape_kept(self, post: HirPattern) -> bool {
        match self {
            HirPattern::Wildcard => post is Wildcard,
            HirPattern::BindVar(v) => post matches HirPattern::BindVar(v2) && v2.var@ == v.var@,
            HirPattern::Tuple(elems) => post matches HirPattern::Tuple(es2) && es2@.len()
                == elems@.len(),
            HirPattern::Cons(_, _) => post is Cons,
            HirPattern::Atomic(_) => post is Atomic,
        }
    }
}

/// One arm of a `case`.
#[derive(Debug)]
pub struct HirClause {
    pub pattern: HirPattern,
    pub body: HirExpr,
}

/// A scoped expression.
#[derive(Debug)]
pub enum HirExpr {
    /// A variable reference.
    Variable(AVariable),
    /// A literal.
    Atomic(AtomicTerm),
    /// Reference to a local function as a callable value.
    LocalFunction { name: String, arity: usize },
    /// Tuple construction.
    Tuple(Vec<HirExpr>),
    /// List cell construction.
    Cons(Box<HirExpr>, Box<HirExpr>),
    /// A call of a callable expression.
    Apply { callee: Box<HirExpr>, args: Vec<HirExpr> },
    /// `V = E`: bind a fresh variable to the value of `E`; the whole
    /// expression's value is that value. Matching against an already
    /// bound name must be desugared to an equality guard upstream.
    Match { var: AVariable, value: Box<HirExpr> },
    /// A sequence of expressions; its value is the last one's. Bindings
    /// made by `Match` stay visible until the enclosing scope closes.
    Body { exprs: Vec<HirExpr> },
    /// Pattern match with one arm per clause.
    Case { subject: Box<HirExpr>, clauses: Vec<HirClause> },
    /// An anonymous function. Lambda extraction removes every one of
    /// these, recording the captured variables.
    Fun { params: Vec<AVariable>, body: Box<HirExpr> },
    /// A lifted closure site: materialize the closure of the lifted
    /// function `idx` of lambda environment `env`, of the given arity,
    /// over the captures.
    BindClosure { env: usize, idx: usize, arity: usize, captures: Vec<AVariable> },
}

impl HirExpr {
    /// No closure literal occurs anywhere in the expression.
    pub open spec fn closure_free(self) -> bool
        decreases self,
    {
        match self {
            HirExpr::Variable(_) => true,
            HirExpr::Atomic(_) => true,
            HirExpr::LocalFunction { .. } => true,
            HirExpr::Tuple(elems) => Self::closure_free_list(elems@),
            HirExpr::Cons(h, t) => h.closure_free() && t.closure_free(),
            HirExpr::Apply { callee, args } => callee.closure_free() && Self::closure_free_list(
                args@,
            ),
            HirExpr::Match { value, .. } => value.closure_free(),
            HirExpr::Body { exprs } => Self::closure_free_list(exprs@),
            HirExpr::Case { subject, clauses } => subject.closure_free()
                && Self::closure_free_clauses(clauses@),
            HirExpr::Fun { .. } => false,
            HirExpr::BindClosure { .. } => true,
        }
    }

    /// How many closure literals the expression holds, in depth-first
    /// order, counting nested ones.
    pub open spec fn closure_count(self) -> nat
        decreases self,
    {
        match self {
            HirExpr::Variable(_) => 0,
            HirExpr::Atomic(_) => 0,
            HirExpr::LocalFunction { .. } => 0,
            HirExpr::Tuple(elems) => Self::closure_count_list(elems@),
            HirExpr::Cons(h, t) => h.closure_count() + t.closure_count(),
            HirExpr::Apply { callee, args } => callee.closure_count() + Self::closure_count_list(
                args@,
            ),
            HirExpr::Match { value, .. } => value.closure_count(),
            HirExpr::Body { exprs } => Self::closure_count_list(exprs@),
            HirExpr::Case { subject, clauses } => subject.closure_count()
                + Self::closure_count_clauses(clauses@),
            HirExpr::Fun { body, .. } => 1 + body.closure_count(),
            HirExpr::BindClosure { .. } => 0,
        }
    }

    pub open spec fn closure_count_list(es: Seq<HirExpr>) -> nat
        decreases es,
    {
        if es.len() == 0 {
            0
        } else {
            es[0].closure_count() + Self::closure_count_list(es.drop_first())
        }
    }

    pub open spec fn closure_count_clauses(cs: Seq<HirClause>) -> nat
        decreases cs,
    {
        if cs.len() == 0 {
            0
        } else {
            cs[0].body.closure_count() + Self::closure_count_clauses(cs.drop_first())
        }
    }

    pub open spec fn closure_free_list(es: Seq<HirExpr>) -> bool
        decreases es,
    {
        if es.len() == 0 {
            true
        } else {
            es[0].closure_free() && Self::closure_free_list(es.drop_first())
        }
    }

    /// The result of identifier assignment keeps the expression's
    /// outermost constructor: the same variant, the same names and
    /// arities at the head, and the same child counts.
    pub open spec fn head_shape_kept(self, post: HirExpr) -> bool {
        match self {
            HirExpr::Variable(v) => post matches HirExpr::Variable(v2) && v2.var@ == v.var@,
            HirExpr::Atomic(_) => post is Atomic,
            HirExpr::LocalFunction { name, arity } => post matches HirExpr::LocalFunction {
                name: n2,
                arity: a2,
            } && n2@ == name@ && a2 == arity,
            HirExpr::Tuple(elems) => post matches HirExpr::Tuple(es2) && es2@.len()
                == elems@.len(),
            HirExpr::Cons(_, _) => post is Cons,
            HirExpr::Apply { args, .. } => post matches HirExpr::Apply { callee: _, args: a2 }
                && a2@.len() == args@.len(),
            HirExpr::Match { var, .. } => post matches HirExpr::Match { var: v2, value: _ }
                && v2.var@ == var.var@,
            HirExpr::Body { exprs } => post matches HirExpr::Body { exprs: es2 } && es2@.len()
                == exprs@.len(),
            HirExpr::Case { clauses, .. } => post matches HirExpr::Case {
                subject: _,
                clauses: c2,
            } && c2@.len() == clauses@.len(),
            HirExpr::Fun { params, .. } => post matches HirExpr::Fun { params: p2, body: _ }
                && p2@.len() == params@.len(),
            HirExpr::BindClosure { env, idx, arity, captures } => post
                matches HirExpr::BindClosure { env: e2, idx: i2, arity: a2, captures: c2 } && e2
                == env && i2 == idx && a2 == arity && c2@.len() == captures@.len(),
        }
    }

    pub open spec fn closure_free_clauses(cs: Seq<HirClause>) -> bool
        decreases cs,
    {
        if cs.len() == 0 {
            true
        } else {
            cs[0].body.closure_free() && Self::closure_free_clauses(cs.drop_first())
        }
    }
}

/// A function of the high-level IR: named formal parameters and one
/// body expression.
#[derive(Debug)]
pub struct HirFunction {
    pub args: Vec<AVariable>,
    pub body: HirExpr,
}

/// One clause of a parsed named function: patterns over the parameters
/// and a body sequence. Guards must have been desugared upstream.
#[derive(Debug)]
pub struct ParsedClause {
    pub params: Vec<HirPattern>,
    pub body: Vec<HirExpr>,
}

/// A parsed named function.
#[derive(Debug)]
pub struct ParsedFunction {
    pub name: String,
    pub arity: usize,
    pub clauses: Vec<ParsedClause>,
    pub public: bool,
}

/// The parsed surface tree of one module, as the front end hands it in.
#[derive(Debug)]
pub struct ParsedModule {
    pub name: String,
    pub attributes: Vec<(String, AtomicTerm)>,
    pub functions: Vec<ParsedFunction>,
}

} // verus!
