//! SSA assignment: walk the scoped expression tree, give every binding
//! site a unique dataflow identifier, and resolve every reference to the
//! identifier of its innermost binder.
//!
//! A binder (function parameter, pattern variable, a `Match` binding)
//! always allocates a fresh identifier and shadows outer bindings of the
//! same name; it never tests equality against them. References resolve
//! by searching the scope frames inside out; a miss is the one source
//! defect the core diagnoses.

use vstd::prelude::*;
use crate::hir::{AVariable, HirClause, HirExpr, HirPattern};

verus! {

/// Why SSA assignment stopped.
#[derive(Debug)]
pub enum SsaError {
    /// A variable reference did not resolve in any enclosing scope.
    UnboundVariable { name: String },
    /// The identifier supply is exhausted.
    OutOfIdentifiers,
}

/// The scope tracker: a stack of frames, each mapping surface names to
/// dataflow identifiers, and the next identifier to hand out.
pub struct ScopeTracker {
    pub scopes: Vec<Vec<(String, u64)>>,
    pub next_ssa: u64,
}

impl ScopeTracker {
    /// Identifiers handed out so far lie below `next_ssa`, and zero is
    /// never handed out: it marks unassigned variables.
    pub open spec fn wf(self) -> bool {
        &&& self.next_ssa >= 1
        &&& forall|i: int, j: int|
            0 <= i < self.scopes@.len() && 0 <= j < self.scopes@[i]@.len() ==> 1 <= (
            #[trigger] self.scopes@[i]@[j]).1 < self.next_ssa
    }

    pub fn new() -> (r: ScopeTracker)
        ensures
            r.wf(),
            r.scopes@.len() == 0,
            r.next_ssa == 1,
    {
        ScopeTracker { scopes: Vec::new(), next_ssa: 1 }
    }

    /// Open a new, empty scope frame.
    pub fn push_scope(&mut self)
        requires
            old(self).wf(),
        ensures
            final(self).wf(),
            final(self).scopes@.len() == old(self).scopes@.len() + 1,
            final(self).scopes@.drop_last() == old(self).scopes@,
            final(self).scopes@.last()@ == Seq::<(String, u64)>::empty(),
            final(self).next_ssa == old(self).next_ssa,
    {
        self.scopes.push(Vec::new());
        proof {
            assert(self.scopes@.drop_last() =~= old(self).scopes@);
        }
        proof {
            assert forall|i: int, j: int|
                0 <= i < self.scopes@.len() && 0 <= j < self.scopes@[i]@.len() implies 1 <= (
            #[trigger] self.scopes@[i]@[j]).1 < self.next_ssa by {
                if i < old(self).scopes@.len() {
                    assert(self.scopes@[i] == old(self).scopes@[i]);
                }
            }
        }
    }

    /// Close the innermost scope frame.
    pub fn pop_scope(&mut self)
        requires
            old(self).wf(),
            old(self).scopes@.len() > 0,
        ensures
            final(self).wf(),
            final(self).scopes@ == old(self).scopes@.drop_last(),
            final(self).scopes@.len() == old(self).scopes@.len() - 1,
            final(self).next_ssa == old(self).next_ssa,
    {
        let _ = self.scopes.pop();
        proof {
            assert forall|i: int, j: int|
                0 <= i < self.scopes@.len() && 0 <= j < self.scopes@[i]@.len() implies 1 <= (
            #[trigger] self.scopes@[i]@[j]).1 < self.next_ssa by {
                assert(self.scopes@[i] == old(self).scopes@[i]);
            }
        }
    }

    /// Allocate a fresh dataflow identifier.
    pub fn new_ssa(&mut self) -> (r: Result<u64, SsaError>)
        requires
            old(self).wf(),
        ensures
            final(self).wf(),
            final(self).scopes@ == old(self).scopes@,
            match r {
                Ok(id) => id == old(self).next_ssa && final(self).next_ssa == old(self).next_ssa
                    + 1,
                Err(_) => *final(self) == *old(self),
            },
    {
        if self.next_ssa == u64::MAX {
            return Err(SsaError::OutOfIdentifiers);
        }
        let id = self.next_ssa;
        self.next_ssa = self.next_ssa + 1;
        Ok(id)
    }

    /// Install a binding in the innermost frame, shadowing outer ones.
    pub fn bind(&mut self, name: String, id: u64)
        requires
            old(self).wf(),
            old(self).scopes@.len() > 0,
            1 <= id < old(self).next_ssa,
        ensures
            final(self).wf(),
            final(self).scopes@.len() == old(self).scopes@.len(),
            final(self).scopes@.drop_last() == old(self).scopes@.drop_last(),
            final(self).scopes@.last()@ == old(self).scopes@.last()@.push((name, id)),
            final(self).next_ssa == old(self).next_ssa,
    {
        let top = self.scopes.len() - 1;
        let inner = &mut self.scopes[top];
        inner.push((name, id));
        proof {
            assert(self.scopes@.drop_last() =~= old(self).scopes@.drop_last());
            assert forall|i: int, j: int|
                0 <= i < self.scopes@.len() && 0 <= j < self.scopes@[i]@.len() implies 1 <= (
            #[trigger] self.scopes@[i]@[j]).1 < self.next_ssa by {
                if i != top {
                    assert(self.scopes@[i] == old(self).scopes@[i]);
                } else {
                    if j < old(self).scopes@[i]@.len() {
                        assert(self.scopes@[i]@[j] == old(self).scopes@[i]@[j]);
                    }
                }
            }
        }
    }

    /// What one frame yields for a name: the newest binding of it.
    pub open spec fn frame_lookup(frame: Seq<(String, u64)>, name: Seq<char>) -> Option<u64>
        decreases frame.len(),
    {
        if frame.len() == 0 {
            None
        } else if frame.last().0@ == name {
            Some(frame.last().1)
        } else {
            Self::frame_lookup(frame.drop_last(), name)
        }
    }

    /// What the scope stack yields for a name: the innermost frame that
    /// binds it wins, and within a frame the newest binding wins.
    pub open spec fn scopes_lookup(scopes: Seq<Vec<(String, u64)>>, name: Seq<char>) -> Option<
        u64,
    >
        decreases scopes.len(),
    {
        if scopes.len() == 0 {
            None
        } else {
            match Self::frame_lookup(scopes.last()@, name) {
                Some(id) => Some(id),
                None => Self::scopes_lookup(scopes.drop_last(), name),
            }
        }
    }

    /// Resolve a name, searching frames inside out and, within a frame,
    /// the newest bindings first.
    pub fn resolve(&self, name: &String) -> (r: Option<u64>)
        requires
            self.wf(),
        ensures
            r == Self::scopes_lookup(self.scopes@, name@),
            match r {
                Some(id) => 1 <= id < self.next_ssa,
                None => true,
            },
    {
        let mut fi = self.scopes.len();
        proof {
            assert(self.scopes@.take(fi as int) =~= self.scopes@);
        }
        while fi > 0
            invariant
                fi <= self.scopes@.len(),
                self.wf(),
                Self::scopes_lookup(self.scopes@, name@) == Self::scopes_lookup(
                    self.scopes@.take(fi as int),
                    name@,
                ),
            decreases fi,
        {
            fi = fi - 1;
            let frame_len = self.scopes[fi].len();
            let mut ei = frame_len;
            proof {
                assert(self.scopes@[fi as int]@.take(ei as int) =~= self.scopes@[fi as int]@);
            }
            while ei > 0
                invariant
                    fi < self.scopes@.len(),
                    ei <= self.scopes@[fi as int]@.len(),
                    self.wf(),
                    Self::scopes_lookup(self.scopes@, name@) == Self::scopes_lookup(
                        self.scopes@.take(fi + 1),
                        name@,
                    ),
                    Self::frame_lookup(self.scopes@[fi as int]@, name@) == Self::frame_lookup(
                        self.scopes@[fi as int]@.take(ei as int),
                        name@,
                    ),
                decreases ei,
            {
                ei = ei - 1;
                proof {
                    let frame = self.scopes@[fi as int]@;
                    assert(frame.take(ei + 1).last() == frame[ei as int]);
                    assert(frame.take(ei + 1).drop_last() =~= frame.take(ei as int));
                }
                if self.scopes[fi][ei].0.eq(name) {
                    proof {
                        let scopes = self.scopes@;
                        assert(scopes.take(fi + 1).last() == scopes[fi as int]);
                        assert(Self::frame_lookup(scopes[fi as int]@, name@) == Some(
                            scopes[fi as int]@[ei as int].1,
                        ));
                    }
                    return Some(self.scopes[fi][ei].1);
                }
            }
            proof {
                let scopes = self.scopes@;
                let frame = scopes[fi as int]@;
                assert(frame.take(0) =~= Seq::<(String, u64)>::empty());
                assert(Self::frame_lookup(frame, name@) is None);
                assert(scopes.take(fi + 1).last() == scopes[fi as int]);
                assert(scopes.take(fi + 1).drop_last() =~= scopes.take(fi as int));
            }
        }
        proof {
            assert(self.scopes@.take(0) =~= Seq::<Vec<(String, u64)>>::empty());
        }
        None
    }
}

impl HirPattern {
    /// Every binder of the pattern carries an identifier at least `lo`.
    pub open spec fn binders_ge(self, lo: u64) -> bool
        decreases self,
    {
        match self {
            HirPattern::Wildcard => true,
            HirPattern::BindVar(v) => v.ssa >= lo,
            HirPattern::Tuple(elems) => Self::binders_ge_list(elems@, lo),
            HirPattern::Cons(h, t) => h.binders_ge(lo) && t.binders_ge(lo),
            HirPattern::Atomic(_) => true,
        }
    }

    pub open spec fn binders_ge_list(ps: Seq<HirPattern>, lo: u64) -> bool
        decreases ps,
    {
        if ps.len() == 0 {
            true
        } else {
            ps[0].binders_ge(lo) && Self::binders_ge_list(ps.drop_first(), lo)
        }
    }

    /// The bound is monotone: binders above `hi` are above any `lo <= hi`.
    pub proof fn lemma_binders_ge_mono(self, lo: u64, hi: u64)
        requires
            self.binders_ge(hi),
            lo <= hi,
        ensures
            self.binders_ge(lo),
        decreases self,
    {
        match self {
            HirPattern::Tuple(elems) => {
                Self::lemma_binders_ge_mono_list(elems@, lo, hi);
            },
            HirPattern::Cons(h, t) => {
                h.lemma_binders_ge_mono(lo, hi);
                t.lemma_binders_ge_mono(lo, hi);
            },
            _ => {},
        }
    }

    pub proof fn lemma_binders_ge_mono_list(ps: Seq<HirPattern>, lo: u64, hi: u64)
        requires
            Self::binders_ge_list(ps, hi),
            lo <= hi,
        ensures
            Self::binders_ge_list(ps, lo),
        decreases ps,
    {
        if ps.len() > 0 {
            ps[0].lemma_binders_ge_mono(lo, hi);
            Self::lemma_binders_ge_mono_list(ps.drop_first(), lo, hi);
        }
    }
}

impl HirExpr {
    /// Every binding site in the expression carries an identifier at
    /// least `lo`: binders are fresh with respect to everything that was
    /// handed out before `lo`.
    pub open spec fn binders_ge(self, lo: u64) -> bool
        decreases self,
    {
        match self {
            HirExpr::Variable(_) => true,
            HirExpr::Atomic(_) => true,
            HirExpr::LocalFunction { .. } => true,
            HirExpr::Tuple(elems) => Self::binders_ge_list(elems@, lo),
            HirExpr::Cons(h, t) => h.binders_ge(lo) && t.binders_ge(lo),
            HirExpr::Apply { callee, args } => callee.binders_ge(lo) && Self::binders_ge_list(
                args@,
                lo,
            ),
            HirExpr::Match { var, value } => var.ssa >= lo && value.binders_ge(lo),
            HirExpr::Body { exprs } => Self::binders_ge_list(exprs@, lo),
            HirExpr::Case { subject, clauses } => subject.binders_ge(lo)
                && Self::binders_ge_clauses(clauses@, lo),
            HirExpr::Fun { params, body } => Self::binders_ge_vars(params@, lo) && body.binders_ge(lo),
            HirExpr::BindClosure { .. } => true,
        }
    }

    pub open spec fn binders_ge_list(es: Seq<HirExpr>, lo: u64) -> bool
        decreases es,
    {
        if es.len() == 0 {
            true
        } else {
            es[0].binders_ge(lo) && Self::binders_ge_list(es.drop_first(), lo)
        }
    }

    pub open spec fn binders_ge_clauses(cs: Seq<HirClause>, lo: u64) -> bool
        decreases cs,
    {
        if cs.len() == 0 {
            true
        } else {
            cs[0].pattern.binders_ge(lo) && cs[0].body.binders_ge(lo) && Self::binders_ge_clauses(
                cs.drop_first(),
                lo,
            )
        }
    }

    pub open spec fn binders_ge_vars(vs: Seq<AVariable>, lo: u64) -> bool {
        forall|i: int| 0 <= i < vs.len() ==> (#[trigger] vs[i]).ssa >= lo
    }

    /// The bound is monotone in `lo`.
    pub proof fn lemma_binders_ge_mono(self, lo: u64, hi: u64)
        requires
            self.binders_ge(hi),
            lo <= hi,
        ensures
            self.binders_ge(lo),
        decreases self,
    {
        match self {
            HirExpr::Tuple(elems) => {
                Self::lemma_binders_ge_mono_list(elems@, lo, hi);
            },
            HirExpr::Cons(h, t) => {
                h.lemma_binders_ge_mono(lo, hi);
                t.lemma_binders_ge_mono(lo, hi);
            },
            HirExpr::Apply { callee, args } => {
                callee.lemma_binders_ge_mono(lo, hi);
                Self::lemma_binders_ge_mono_list(args@, lo, hi);
            },
            HirExpr::Match { value, .. } => {
                value.lemma_binders_ge_mono(lo, hi);
            },
            HirExpr::Body { exprs } => {
                Self::lemma_binders_ge_mono_list(exprs@, lo, hi);
            },
            HirExpr::Case { subject, clauses } => {
                subject.lemma_binders_ge_mono(lo, hi);
                Self::lemma_binders_ge_mono_clauses(clauses@, lo, hi);
            },
            HirExpr::Fun { params, body } => {
                body.lemma_binders_ge_mono(lo, hi);
            },
            _ => {},
        }
    }

    pub proof fn lemma_binders_ge_mono_list(es: Seq<HirExpr>, lo: u64, hi: u64)
        requires
            Self::binders_ge_list(es, hi),
            lo <= hi,
        ensures
            Self::binders_ge_list(es, lo),
        decreases es,
    {
        if es.len() > 0 {
            es[0].lemma_binders_ge_mono(lo, hi);
            Self::lemma_binders_ge_mono_list(es.drop_first(), lo, hi);
        }
    }

    pub proof fn lemma_binders_ge_mono_clauses(cs: Seq<HirClause>, lo: u64, hi: u64)
        requires
            Self::binders_ge_clauses(cs, hi),
            lo <= hi,
        ensures
            Self::binders_ge_clauses(cs, lo),
        decreases cs,
    {
        if cs.len() > 0 {
            cs[0].pattern.lemma_binders_ge_mono(lo, hi);
            cs[0].body.lemma_binders_ge_mono(lo, hi);
            Self::lemma_binders_ge_mono_clauses(cs.drop_first(), lo, hi);
        }
    }
}

/// Assign dataflow identifiers to a pattern's binders, installing each
/// in the innermost scope frame.
/// Of a bare variable reference, assignment does exactly what the
/// tracker's lookup says: the innermost binding's identifier on success,
/// the unbound-variable defect naming that variable otherwise, and the
/// tracker untouched either way.
pub open spec fn variable_case_exact(
    pre: ScopeTracker,
    expr: HirExpr,
    r: Result<HirExpr, SsaError>,
) -> bool {
    match expr {
        HirExpr::Variable(v) => match ScopeTracker::scopes_lookup(pre.scopes@, v.var@) {
            Some(id) => r matches Ok(e2) && e2 matches HirExpr::Variable(v2) && v2.var@ == v.var@
                && v2.ssa == id,
            None => r matches Err(SsaError::UnboundVariable { name }) && name@ == v.var@,
        },
        _ => true,
    }
}

#[verifier::loop_isolation(false)]
pub fn assign_ssa_pattern(env: &mut ScopeTracker, pattern: &HirPattern) -> (r: Result<
    HirPattern,
    SsaError,
>)
    requires
        old(env).wf(),
        old(env).scopes@.len() > 0,
    ensures
        final(env).wf(),
        final(env).scopes@.len() == old(env).scopes@.len(),
        final(env).next_ssa >= old(env).next_ssa,
        match r {
            Ok(p2) => p2.binders_ge(old(env).next_ssa) && pattern.head_shape_kept(p2),
            Err(_) => true,
        },
    decreases pattern,
{
    match pattern {
        HirPattern::Wildcard => Ok(HirPattern::Wildcard),
        HirPattern::BindVar(v) => {
            let id = match env.new_ssa() {
                Ok(id) => id,
                Err(e) => {
                    return Err(e);
                },
            };
            env.bind(v.var.clone(), id);
            Ok(HirPattern::BindVar(AVariable { var: v.var.clone(), ssa: id }))
        },
        HirPattern::Tuple(elems) => {
            let ghost lo = old(env).next_ssa;
            let mut out: Vec<HirPattern> = Vec::new();
            let n = elems.len();
            let mut i: usize = 0;
            while i < n
                invariant
                    i <= n,
                    i == out@.len(),
                    n == elems@.len(),
                    env.wf(),
                    env.scopes@.len() == old(env).scopes@.len(),
                    env.scopes@.len() > 0,
                    env.next_ssa >= lo,
                    HirPattern::binders_ge_list(out@, lo),
                decreases n - i,
            {
                let ghost mid = env.next_ssa;
                let p2 = match assign_ssa_pattern(env, &elems[i]) {
                    Ok(p2) => p2,
                    Err(e) => {
                        return Err(e);
                    },
                };
                proof {
                    p2.lemma_binders_ge_mono(lo, mid);
                    lemma_pat_list_push(out@, p2, lo);
                }
                out.push(p2);
                i = i + 1;
            }
            Ok(HirPattern::Tuple(out))
        },
        HirPattern::Cons(h, t) => {
            let ghost lo = old(env).next_ssa;
            let h2 = match assign_ssa_pattern(env, h) {
                Ok(p2) => p2,
                Err(e) => {
                    return Err(e);
                },
            };
            let ghost mid = env.next_ssa;
            let t2 = match assign_ssa_pattern(env, t) {
                Ok(p2) => p2,
                Err(e) => {
                    return Err(e);
                },
            };
            proof {
                t2.lemma_binders_ge_mono(lo, mid);
            }
            Ok(HirPattern::Cons(Box::new(h2), Box::new(t2)))
        },
        HirPattern::Atomic(term) => Ok(HirPattern::Atomic(term.duplicate())),
    }
}

/// Appending a bounded pattern keeps the list bound.
proof fn lemma_pat_list_push(ps: Seq<HirPattern>, p: HirPattern, lo: u64)
    requires
        HirPattern::binders_ge_list(ps, lo),
        p.binders_ge(lo),
    ensures
        HirPattern::binders_ge_list(ps.push(p), lo),
    decreases ps,
{
    reveal_with_fuel(HirPattern::binders_ge_list, 2);
    if ps.len() == 0 {
        assert(ps.push(p)[0] == p);
        assert(ps.push(p).drop_first() =~= Seq::<HirPattern>::empty());
        assert(HirPattern::binders_ge_list(Seq::<HirPattern>::empty(), lo));
    } else {
        assert(ps.push(p)[0] == ps[0]);
        assert(ps.push(p).drop_first() =~= ps.drop_first().push(p));
        lemma_pat_list_push(ps.drop_first(), p, lo);
        assert(HirPattern::binders_ge_list(ps.drop_first().push(p), lo));
    }
}

/// Appending a bounded expression keeps the list bound.
proof fn lemma_expr_list_push(es: Seq<HirExpr>, e: HirExpr, lo: u64)
    requires
        HirExpr::binders_ge_list(es, lo),
        e.binders_ge(lo),
    ensures
        HirExpr::binders_ge_list(es.push(e), lo),
    decreases es,
{
    reveal_with_fuel(HirExpr::binders_ge_list, 2);
    if es.len() == 0 {
        assert(es.push(e)[0] == e);
        assert(es.push(e).drop_first() =~= Seq::<HirExpr>::empty());
        assert(HirExpr::binders_ge_list(Seq::<HirExpr>::empty(), lo));
    } else {
        assert(es.push(e)[0] == es[0]);
        assert(es.push(e).drop_first() =~= es.drop_first().push(e));
        lemma_expr_list_push(es.drop_first(), e, lo);
        assert(HirExpr::binders_ge_list(es.drop_first().push(e), lo));
    }
}

/// Appending a bounded clause keeps the clause list bound.
proof fn lemma_clause_list_push(cs: Seq<HirClause>, c: HirClause, lo: u64)
    requires
        HirExpr::binders_ge_clauses(cs, lo),
        c.pattern.binders_ge(lo),
        c.body.binders_ge(lo),
    ensures
        HirExpr::binders_ge_clauses(cs.push(c), lo),
    decreases cs,
{
    reveal_with_fuel(HirExpr::binders_ge_clauses, 2);
    if cs.len() == 0 {
        assert(cs.push(c)[0] == c);
        assert(cs.push(c).drop_first() =~= Seq::<HirClause>::empty());
        assert(HirExpr::binders_ge_clauses(Seq::<HirClause>::empty(), lo));
    } else {
        assert(cs.push(c)[0] == cs[0]);
        assert(cs.push(c).drop_first() =~= cs.drop_first().push(c));
        lemma_clause_list_push(cs.drop_first(), c, lo);
        assert(HirExpr::binders_ge_clauses(cs.drop_first().push(c), lo));
    }
}

/// Walk a list of expressions in order, assigning identifiers to each.
#[verifier::loop_isolation(false)]
fn assign_ssa_list(env: &mut ScopeTracker, exprs: &Vec<HirExpr>) -> (r: Result<
    Vec<HirExpr>,
    SsaError,
>)
    requires
        old(env).wf(),
        old(env).scopes@.len() > 0,
    ensures
        final(env).wf(),
        final(env).scopes@.len() == old(env).scopes@.len(),
        final(env).next_ssa >= old(env).next_ssa,
        match r {
            Ok(es2) => HirExpr::binders_ge_list(es2@, old(env).next_ssa) && es2@.len()
                == exprs@.len(),
            Err(_) => true,
        },
    decreases exprs@,
{
    let ghost lo = old(env).next_ssa;
    let mut out: Vec<HirExpr> = Vec::new();
    let n = exprs.len();
    let mut i: usize = 0;
    while i < n
        invariant
            i <= n,
            i == out@.len(),
            n == exprs@.len(),
            env.wf(),
            env.scopes@.len() == old(env).scopes@.len(),
            env.scopes@.len() > 0,
            env.next_ssa >= lo,
            HirExpr::binders_ge_list(out@, lo),
        decreases n - i,
    {
        let ghost mid = env.next_ssa;
        let e2 = match assign_ssa_single_expression(env, &exprs[i]) {
            Ok(e2) => e2,
            Err(e) => {
                return Err(e);
            },
        };
        proof {
            e2.lemma_binders_ge_mono(lo, mid);
            lemma_expr_list_push(out@, e2, lo);
        }
        out.push(e2);
        i = i + 1;
    }
    Ok(out)
}

/// Assign dataflow identifiers throughout one scoped expression: every
/// binder gets a fresh identifier at least as large as the tracker's
/// next one on entry, so a binder never collides with an outer binding;
/// every reference resolves to its innermost binder, and an unresolved
/// reference is reported as a source defect.
#[verifier::loop_isolation(false)]
pub fn assign_ssa_single_expression(env: &mut ScopeTracker, expr: &HirExpr) -> (r: Result<
    HirExpr,
    SsaError,
>)
    requires
        old(env).wf(),
        old(env).scopes@.len() > 0,
    ensures
        final(env).wf(),
        final(env).scopes@.len() == old(env).scopes@.len(),
        final(env).next_ssa >= old(env).next_ssa,
        match r {
            Ok(e2) => e2.binders_ge(old(env).next_ssa) && expr.head_shape_kept(e2),
            Err(_) => true,
        },
        variable_case_exact(*old(env), *expr, r),
    decreases expr,
{
    let ghost lo = old(env).next_ssa;
    match expr {
        HirExpr::Variable(v) => {
            match env.resolve(&v.var) {
                Some(id) => Ok(HirExpr::Variable(AVariable { var: v.var.clone(), ssa: id })),
                None => Err(SsaError::UnboundVariable { name: v.var.clone() }),
            }
        },
        HirExpr::Atomic(term) => Ok(HirExpr::Atomic(term.duplicate())),
        HirExpr::LocalFunction { name, arity } => Ok(
            HirExpr::LocalFunction { name: name.clone(), arity: *arity },
        ),
        HirExpr::Tuple(elems) => {
            let es2 = match assign_ssa_list(env, elems) {
                Ok(es2) => es2,
                Err(e) => {
                    return Err(e);
                },
            };
            Ok(HirExpr::Tuple(es2))
        },
        HirExpr::Cons(h, t) => {
            let h2 = match assign_ssa_single_expression(env, h) {
                Ok(e2) => e2,
                Err(e) => {
                    return Err(e);
                },
            };
            let ghost mid = env.next_ssa;
            let t2 = match assign_ssa_single_expression(env, t) {
                Ok(e2) => e2,
                Err(e) => {
                    return Err(e);
                },
            };
            proof {
                t2.lemma_binders_ge_mono(lo, mid);
            }
            Ok(HirExpr::Cons(Box::new(h2), Box::new(t2)))
        },
        HirExpr::Apply { callee, args } => {
            let c2 = match assign_ssa_single_expression(env, callee) {
                Ok(e2) => e2,
                Err(e) => {
                    return Err(e);
                },
            };
            let ghost mid = env.next_ssa;
            let args2 = match assign_ssa_list(env, args) {
                Ok(es2) => es2,
                Err(e) => {
                    return Err(e);
                },
            };
            proof {
                HirExpr::lemma_binders_ge_mono_list(args2@, lo, mid);
            }
            Ok(HirExpr::Apply { callee: Box::new(c2), args: args2 })
        },
        HirExpr::Match { var, value } => {
            let v2 = match assign_ssa_single_expression(env, value) {
                Ok(e2) => e2,
                Err(e) => {
                    return Err(e);
                },
            };
            let ghost mid = env.next_ssa;
            let id = match env.new_ssa() {
                Ok(id) => id,
                Err(e) => {
                    return Err(e);
                },
            };
            env.bind(var.var.clone(), id);
            Ok(HirExpr::Match { var: AVariable { var: var.var.clone(), ssa: id }, value: Box::new(v2) })
        },
        HirExpr::Body { exprs } => {
            let es2 = match assign_ssa_list(env, exprs) {
                Ok(es2) => es2,
                Err(e) => {
                    return Err(e);
                },
            };
            Ok(HirExpr::Body { exprs: es2 })
        },
        HirExpr::Case { subject, clauses } => {
            let s2 = match assign_ssa_single_expression(env, subject) {
                Ok(e2) => e2,
                Err(e) => {
                    return Err(e);
                },
            };
            let mut out: Vec<HirClause> = Vec::new();
            let n = clauses.len();
            let mut i: usize = 0;
            while i < n
                invariant
                    i <= n,
                    i == out@.len(),
                    n == clauses@.len(),
                    env.wf(),
                    env.scopes@.len() == old(env).scopes@.len(),
                    env.scopes@.len() > 0,
                    env.next_ssa >= lo,
                    HirExpr::binders_ge_clauses(out@, lo),
                decreases n - i,
            {
                env.push_scope();
                let ghost mid = env.next_ssa;
                let p2 = match assign_ssa_pattern(env, &clauses[i].pattern) {
                    Ok(p2) => p2,
                    Err(e) => {
                        env.pop_scope();
                        return Err(e);
                    },
                };
                let ghost mid2 = env.next_ssa;
                let b2 = match assign_ssa_single_expression(env, &clauses[i].body) {
                    Ok(e2) => e2,
                    Err(e) => {
                        env.pop_scope();
                        return Err(e);
                    },
                };
                env.pop_scope();
                proof {
                    p2.lemma_binders_ge_mono(lo, mid);
                    b2.lemma_binders_ge_mono(lo, mid2);
                    lemma_clause_list_push(out@, HirClause { pattern: p2, body: b2 }, lo);
                }
                out.push(HirClause { pattern: p2, body: b2 });
                i = i + 1;
            }
            Ok(HirExpr::Case { subject: Box::new(s2), clauses: out })
        },
        HirExpr::Fun { params, body } => {
            env.push_scope();
            let mut params2: Vec<AVariable> = Vec::new();
            let n = params.len();
            let mut i: usize = 0;
            while i < n
                invariant
                    i <= n,
                    i == params2@.len(),
                    n == params@.len(),
                    env.wf(),
                    env.scopes@.len() == old(env).scopes@.len() + 1,
                    env.next_ssa >= lo,
                    HirExpr::binders_ge_vars(params2@, lo),
                decreases n - i,
            {
                let id = match env.new_ssa() {
                    Ok(id) => id,
                    Err(e) => {
                        env.pop_scope();
                        return Err(e);
                    },
                };
                env.bind(params[i].var.clone(), id);
                params2.push(AVariable { var: params[i].var.clone(), ssa: id });
                i = i + 1;
            }
            let ghost mid = env.next_ssa;
            let b2 = match assign_ssa_single_expression(env, body) {
                Ok(e2) => e2,
                Err(e) => {
                    env.pop_scope();
                    return Err(e);
                },
            };
            env.pop_scope();
            proof {
                b2.lemma_binders_ge_mono(lo, mid);
            }
            Ok(HirExpr::Fun { params: params2, body: Box::new(b2) })
        },
        HirExpr::BindClosure { env: e, idx, arity, captures } => {
            let mut caps2: Vec<AVariable> = Vec::new();
            let n = captures.len();
            let mut i: usize = 0;
            while i < n
                invariant
                    i <= n,
                    i == caps2@.len(),
                    n == captures@.len(),
                    env.wf(),
                decreases n - i,
            {
                caps2.push(
                    AVariable { var: captures[i].var.clone(), ssa: captures[i].ssa },
                );
                i = i + 1;
            }
            Ok(HirExpr::BindClosure { env: *e, idx: *idx, arity: *arity, captures: caps2 })
        },
    }
}

} // verus!
