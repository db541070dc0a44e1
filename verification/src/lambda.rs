//! Lambda extraction (closure conversion).
//!
//! Every closure expression is lifted out of its host function: its
//! ordered capture list is the list of free variables of its body, the
//! lifted top-level function takes the captures followed by the original
//! parameters, and the closure expression itself becomes a
//! make-closure site naming the lambda environment and the lifted
//! function. After extraction a host function holds no closure literal.

use vstd::prelude::*;
use crate::hir::{AVariable, HirClause, HirExpr, HirFunction, HirPattern};

verus! {

/// One lifted closure: its ordered captures and the synthesized
/// top-level function (captures first, then the original parameters).
#[derive(Debug)]
pub struct LiftedLambda {
    pub captures: Vec<AVariable>,
    pub fun: HirFunction,
}

/// Collects the closures lifted out of one host function; they share
/// one lambda environment.
#[derive(Debug)]
pub struct LambdaCollector {
    pub env_idx: usize,
    pub lifted: Vec<LiftedLambda>,
}

impl LambdaCollector {
    pub fn new(env_idx: usize) -> (r: LambdaCollector)
        ensures
            r.env_idx == env_idx,
            r.lifted@.len() == 0,
    {
        LambdaCollector { env_idx, lifted: Vec::new() }
    }

    /// Hand the lifted closures back.
    pub fn finish(self) -> (r: Vec<LiftedLambda>)
        ensures
            r == self.lifted,
    {
        self.lifted
    }
}

/// Copy a variable list.
fn copy_vars(vs: &Vec<AVariable>) -> (r: Vec<AVariable>)
    ensures
        r@.len() == vs@.len(),
        forall|i: int|
            0 <= i < vs@.len() ==> (#[trigger] r@[i]).ssa == vs@[i].ssa && r@[i].var@
                == vs@[i].var@,
{
    let mut out: Vec<AVariable> = Vec::new();
    let n = vs.len();
    let mut i: usize = 0;
    while i < n
        invariant
            i <= n,
            n == vs@.len(),
            out@.len() == i,
            forall|j: int|
                0 <= j < i ==> (#[trigger] out@[j]).ssa == vs@[j].ssa && out@[j].var@
                    == vs@[j].var@,
        decreases n - i,
    {
        out.push(AVariable { var: vs[i].var.clone(), ssa: vs[i].ssa });
        i = i + 1;
    }
    out
}

/// Whether the identifier is in the list.
fn contains_id(v: &Vec<u64>, x: u64) -> (r: bool)
    ensures
        r == v@.contains(x),
{
    let n = v.len();
    let mut i: usize = 0;
    while i < n
        invariant
            n == v@.len(),
            i <= n,
            forall|j: int| 0 <= j < i ==> v@[j] != x,
        decreases n - i,
    {
        if v[i] == x {
            return true;
        }
        i = i + 1;
    }
    false
}

/// Record the free variables of an expression: references whose binder
/// lies outside, with the currently bound identifiers in `bound`. Each
/// free variable is recorded once; `bound` is restored on return.
#[verifier::loop_isolation(false)]
fn free_vars(e: &HirExpr, bound: &mut Vec<u64>, out: &mut Vec<AVariable>)
    ensures
        final(bound)@ == old(bound)@,
    decreases e,
{
    match e {
        HirExpr::Variable(v) => {
            if !contains_id(bound, v.ssa) {
                let mut seen = false;
                let n = out.len();
                let mut i: usize = 0;
                while i < n
                    invariant
                        i <= n,
                        n == out@.len(),
                    decreases n - i,
                {
                    if out[i].ssa == v.ssa {
                        seen = true;
                    }
                    i = i + 1;
                }
                if !seen {
                    out.push(AVariable { var: v.var.clone(), ssa: v.ssa });
                }
            }
        },
        HirExpr::Atomic(_) => {},
        HirExpr::LocalFunction { .. } => {},
        HirExpr::Tuple(elems) => {
            free_vars_list(elems, bound, out);
        },
        HirExpr::Cons(h, t) => {
            free_vars(h, bound, out);
            free_vars(t, bound, out);
        },
        HirExpr::Apply { callee, args } => {
            free_vars(callee, bound, out);
            free_vars_list(args, bound, out);
        },
        HirExpr::Match { var, value } => {
            free_vars(value, bound, out);
            // the binding stays visible to the rest of the enclosing body
            bound.push(var.ssa);
            let _ = bound.pop();
        },
        HirExpr::Body { exprs } => {
            // bindings made by `Match` stay visible until the body ends
            let depth = bound.len();
            let n = exprs.len();
            let mut i: usize = 0;
            while i < n
                invariant
                    i <= n,
                    n == exprs@.len(),
                    bound@.len() >= depth,
                    bound@.subrange(0, depth as int) == old(bound)@,
                    depth == old(bound)@.len(),
                decreases n - i,
            {
                free_vars(&exprs[i], bound, out);
                match &exprs[i] {
                    HirExpr::Match { var, .. } => {
                        bound.push(var.ssa);
                        proof {
                            assert(bound@.subrange(0, depth as int) =~= old(bound)@);
                        }
                    },
                    _ => {},
                }
                i = i + 1;
            }
            while bound.len() > depth
                invariant
                    bound@.len() >= depth,
                    bound@.subrange(0, depth as int) == old(bound)@,
                    depth == old(bound)@.len(),
                decreases bound@.len(),
            {
                let _ = bound.pop();
                proof {
                    assert(bound@.subrange(0, depth as int) =~= old(bound)@);
                }
            }
            proof {
                assert(bound@ =~= old(bound)@);
            }
        },
        HirExpr::Case { subject, clauses } => {
            free_vars(subject, bound, out);
            let n = clauses.len();
            let mut i: usize = 0;
            while i < n
                invariant
                    i <= n,
                    n == clauses@.len(),
                    bound@ == old(bound)@,
                decreases n - i,
            {
                let depth = bound.len();
                pattern_binders(&clauses[i].pattern, bound);
                free_vars(&clauses[i].body, bound, out);
                while bound.len() > depth
                    invariant
                        bound@.len() >= depth,
                        bound@.subrange(0, depth as int) == old(bound)@,
                        depth == old(bound)@.len(),
                    decreases bound@.len(),
                {
                    let _ = bound.pop();
                    proof {
                        assert(bound@.subrange(0, depth as int) =~= old(bound)@);
                    }
                }
                proof {
                    assert(bound@ =~= old(bound)@);
                }
                i = i + 1;
            }
        },
        HirExpr::Fun { params, body } => {
            let depth = bound.len();
            let n = params.len();
            let mut i: usize = 0;
            while i < n
                invariant
                    i <= n,
                    n == params@.len(),
                    bound@.len() >= depth,
                    bound@.subrange(0, depth as int) == old(bound)@,
                    depth == old(bound)@.len(),
                decreases n - i,
            {
                bound.push(params[i].ssa);
                proof {
                    assert(bound@.subrange(0, depth as int) =~= old(bound)@);
                }
                i = i + 1;
            }
            free_vars(body, bound, out);
            while bound.len() > depth
                invariant
                    bound@.len() >= depth,
                    bound@.subrange(0, depth as int) == old(bound)@,
                    depth == old(bound)@.len(),
                decreases bound@.len(),
            {
                let _ = bound.pop();
                proof {
                    assert(bound@.subrange(0, depth as int) =~= old(bound)@);
                }
            }
            proof {
                assert(bound@ =~= old(bound)@);
            }
        },
        HirExpr::BindClosure { captures, .. } => {
            let n = captures.len();
            let mut i: usize = 0;
            while i < n
                invariant
                    i <= n,
                    n == captures@.len(),
                    bound@ == old(bound)@,
                decreases n - i,
            {
                if !contains_id(bound, captures[i].ssa) {
                    let mut seen = false;
                    let m = out.len();
                    let mut k: usize = 0;
                    while k < m
                        invariant
                            k <= m,
                            m == out@.len(),
                        decreases m - k,
                    {
                        if out[k].ssa == captures[i].ssa {
                            seen = true;
                        }
                        k = k + 1;
                    }
                    if !seen {
                        out.push(
                            AVariable { var: captures[i].var.clone(), ssa: captures[i].ssa },
                        );
                    }
                }
                i = i + 1;
            }
        },
    }
}

/// Free variables of each expression of a list, in order.
#[verifier::loop_isolation(false)]
fn free_vars_list(es: &Vec<HirExpr>, bound: &mut Vec<u64>, out: &mut Vec<AVariable>)
    ensures
        final(bound)@ == old(bound)@,
    decreases es@,
{
    let n = es.len();
    let mut i: usize = 0;
    while i < n
        invariant
            i <= n,
            n == es@.len(),
            bound@ == old(bound)@,
        decreases n - i,
    {
        free_vars(&es[i], bound, out);
        i = i + 1;
    }
}

/// Push the identifiers a pattern binds.
#[verifier::loop_isolation(false)]
fn pattern_binders(p: &HirPattern, bound: &mut Vec<u64>)
    ensures
        final(bound)@.len() >= old(bound)@.len(),
        final(bound)@.subrange(0, old(bound)@.len() as int) == old(bound)@,
    decreases p,
{
    match p {
        HirPattern::Wildcard => {},
        HirPattern::BindVar(v) => {
            bound.push(v.ssa);
            proof {
                assert(bound@.subrange(0, old(bound)@.len() as int) =~= old(bound)@);
            }
        },
        HirPattern::Tuple(elems) => {
            let n = elems.len();
            let mut i: usize = 0;
            while i < n
                invariant
                    i <= n,
                    n == elems@.len(),
                    bound@.len() >= old(bound)@.len(),
                    bound@.subrange(0, old(bound)@.len() as int) == old(bound)@,
                decreases n - i,
            {
                let ghost before = bound@;
                pattern_binders(&elems[i], bound);
                proof {
                    assert(bound@.subrange(0, old(bound)@.len() as int) =~= old(bound)@);
                }
                i = i + 1;
            }
        },
        HirPattern::Cons(h, t) => {
            pattern_binders(h, bound);
            let ghost mid = bound@;
            pattern_binders(t, bound);
            proof {
                assert(bound@.subrange(0, old(bound)@.len() as int) =~= old(bound)@);
            }
        },
        HirPattern::Atomic(_) => {},
    }
}

/// Appending a closure-free expression keeps the list closure-free.
proof fn lemma_cf_list_push(es: Seq<HirExpr>, e: HirExpr)
    requires
        HirExpr::closure_free_list(es),
        e.closure_free(),
    ensures
        HirExpr::closure_free_list(es.push(e)),
    decreases es,
{
    reveal_with_fuel(HirExpr::closure_free_list, 2);
    if es.len() == 0 {
        assert(es.push(e)[0] == e);
        assert(es.push(e).drop_first() =~= Seq::<HirExpr>::empty());
        assert(HirExpr::closure_free_list(Seq::<HirExpr>::empty()));
    } else {
        assert(es.push(e)[0] == es[0]);
        assert(es.push(e).drop_first() =~= es.drop_first().push(e));
        lemma_cf_list_push(es.drop_first(), e);
        assert(HirExpr::closure_free_list(es.drop_first().push(e)));
    }
}

/// Appending a clause with a closure-free body keeps the list
/// closure-free.
proof fn lemma_cf_clauses_push(cs: Seq<HirClause>, c: HirClause)
    requires
        HirExpr::closure_free_clauses(cs),
        c.body.closure_free(),
    ensures
        HirExpr::closure_free_clauses(cs.push(c)),
    decreases cs,
{
    reveal_with_fuel(HirExpr::closure_free_clauses, 2);
    if cs.len() == 0 {
        assert(cs.push(c)[0] == c);
        assert(cs.push(c).drop_first() =~= Seq::<HirClause>::empty());
        assert(HirExpr::closure_free_clauses(Seq::<HirClause>::empty()));
    } else {
        assert(cs.push(c)[0] == cs[0]);
        assert(cs.push(c).drop_first() =~= cs.drop_first().push(c));
        lemma_cf_clauses_push(cs.drop_first(), c);
        assert(HirExpr::closure_free_clauses(cs.drop_first().push(c)));
    }
}

/// Lift every closure of the expression into the collector, innermost
/// first; the result holds no closure literal, and neither does any
/// lifted function's body.
#[verifier::loop_isolation(false)]
pub fn extract_lambdas(e: &HirExpr, collector: &mut LambdaCollector) -> (r: HirExpr)
    requires
        forall|j: int|
            0 <= j < old(collector).lifted@.len()
                ==> (#[trigger] old(collector).lifted@[j]).fun.body.closure_free(),
    ensures
        r.closure_free(),
        final(collector).env_idx == old(collector).env_idx,
        final(collector).lifted@.len() == old(collector).lifted@.len() + e.closure_count(),
        forall|j: int|
            0 <= j < final(collector).lifted@.len()
                ==> (#[trigger] final(collector).lifted@[j]).fun.body.closure_free(),
    decreases e,
{
    match e {
        HirExpr::Variable(v) => HirExpr::Variable(AVariable { var: v.var.clone(), ssa: v.ssa }),
        HirExpr::Atomic(term) => HirExpr::Atomic(term.duplicate()),
        HirExpr::LocalFunction { name, arity } => HirExpr::LocalFunction {
            name: name.clone(),
            arity: *arity,
        },
        HirExpr::Tuple(elems) => {
            let mut out: Vec<HirExpr> = Vec::new();
            let n = elems.len();
            let mut i: usize = 0;
            proof {
                assert(elems@.skip(0) =~= elems@);
            }
            while i < n
                invariant
                    i <= n,
                    n == elems@.len(),
                    HirExpr::closure_free_list(out@),
                    collector.env_idx == old(collector).env_idx,
                    collector.lifted@.len() + HirExpr::closure_count_list(elems@.skip(i as int))
                        == old(collector).lifted@.len() + HirExpr::closure_count_list(elems@),
                    collector.lifted@.len() >= old(collector).lifted@.len(),
                    forall|j: int|
                        0 <= j < collector.lifted@.len() ==> (#[trigger] collector.lifted@[j]).fun.body.closure_free(),
                decreases n - i,
            {
                proof {
                    assert(elems@.skip(i as int)[0] == elems@[i as int]);
                    assert(elems@.skip(i as int).drop_first() =~= elems@.skip(i + 1));
                }
                let e2 = extract_lambdas(&elems[i], collector);
                proof {
                    lemma_cf_list_push(out@, e2);
                }
                out.push(e2);
                i = i + 1;
            }
            proof {
                assert(elems@.skip(n as int) =~= Seq::<HirExpr>::empty());
            }
            HirExpr::Tuple(out)
        },
        HirExpr::Cons(h, t) => {
            let h2 = extract_lambdas(h, collector);
            let t2 = extract_lambdas(t, collector);
            HirExpr::Cons(Box::new(h2), Box::new(t2))
        },
        HirExpr::Apply { callee, args } => {
            let c2 = extract_lambdas(callee, collector);
            let ghost after_callee = collector.lifted@.len();
            let mut out: Vec<HirExpr> = Vec::new();
            let n = args.len();
            let mut i: usize = 0;
            proof {
                assert(args@.skip(0) =~= args@);
            }
            while i < n
                invariant
                    i <= n,
                    n == args@.len(),
                    HirExpr::closure_free_list(out@),
                    collector.env_idx == old(collector).env_idx,
                    collector.lifted@.len() + HirExpr::closure_count_list(args@.skip(i as int))
                        == after_callee + HirExpr::closure_count_list(args@),
                    after_callee == old(collector).lifted@.len() + callee.closure_count(),
                    collector.lifted@.len() >= old(collector).lifted@.len(),
                    forall|j: int|
                        0 <= j < collector.lifted@.len() ==> (#[trigger] collector.lifted@[j]).fun.body.closure_free(),
                decreases n - i,
            {
                proof {
                    assert(args@.skip(i as int)[0] == args@[i as int]);
                    assert(args@.skip(i as int).drop_first() =~= args@.skip(i + 1));
                }
                let e2 = extract_lambdas(&args[i], collector);
                proof {
                    lemma_cf_list_push(out@, e2);
                }
                out.push(e2);
                i = i + 1;
            }
            proof {
                assert(args@.skip(n as int) =~= Seq::<HirExpr>::empty());
            }
            HirExpr::Apply { callee: Box::new(c2), args: out }
        },
        HirExpr::Match { var, value } => {
            let v2 = extract_lambdas(value, collector);
            HirExpr::Match {
                var: AVariable { var: var.var.clone(), ssa: var.ssa },
                value: Box::new(v2),
            }
        },
        HirExpr::Body { exprs } => {
            let mut out: Vec<HirExpr> = Vec::new();
            let n = exprs.len();
            let mut i: usize = 0;
            proof {
                assert(exprs@.skip(0) =~= exprs@);
            }
            while i < n
                invariant
                    i <= n,
                    n == exprs@.len(),
                    HirExpr::closure_free_list(out@),
                    collector.env_idx == old(collector).env_idx,
                    collector.lifted@.len() + HirExpr::closure_count_list(exprs@.skip(i as int))
                        == old(collector).lifted@.len() + HirExpr::closure_count_list(exprs@),
                    collector.lifted@.len() >= old(collector).lifted@.len(),
                    forall|j: int|
                        0 <= j < collector.lifted@.len() ==> (#[trigger] collector.lifted@[j]).fun.body.closure_free(),
                decreases n - i,
            {
                proof {
                    assert(exprs@.skip(i as int)[0] == exprs@[i as int]);
                    assert(exprs@.skip(i as int).drop_first() =~= exprs@.skip(i + 1));
                }
                let e2 = extract_lambdas(&exprs[i], collector);
                proof {
                    lemma_cf_list_push(out@, e2);
                }
                out.push(e2);
                i = i + 1;
            }
            proof {
                assert(exprs@.skip(n as int) =~= Seq::<HirExpr>::empty());
            }
            HirExpr::Body { exprs: out }
        },
        HirExpr::Case { subject, clauses } => {
            let s2 = extract_lambdas(subject, collector);
            let ghost after_subject = collector.lifted@.len();
            let mut out: Vec<HirClause> = Vec::new();
            let n = clauses.len();
            let mut i: usize = 0;
            proof {
                assert(clauses@.skip(0) =~= clauses@);
            }
            while i < n
                invariant
                    i <= n,
                    n == clauses@.len(),
                    HirExpr::closure_free_clauses(out@),
                    collector.env_idx == old(collector).env_idx,
                    collector.lifted@.len() + HirExpr::closure_count_clauses(
                        clauses@.skip(i as int),
                    ) == after_subject + HirExpr::closure_count_clauses(clauses@),
                    after_subject == old(collector).lifted@.len() + subject.closure_count(),
                    collector.lifted@.len() >= old(collector).lifted@.len(),
                    forall|j: int|
                        0 <= j < collector.lifted@.len() ==> (#[trigger] collector.lifted@[j]).fun.body.closure_free(),
                decreases n - i,
            {
                proof {
                    assert(clauses@.skip(i as int)[0] == clauses@[i as int]);
                    assert(clauses@.skip(i as int).drop_first() =~= clauses@.skip(i + 1));
                }
                let b2 = extract_lambdas(&clauses[i].body, collector);
                let p2 = copy_pattern(&clauses[i].pattern);
                proof {
                    lemma_cf_clauses_push(out@, HirClause { pattern: p2, body: b2 });
                }
                out.push(HirClause { pattern: p2, body: b2 });
                i = i + 1;
            }
            proof {
                assert(clauses@.skip(n as int) =~= Seq::<HirClause>::empty());
            }
            HirExpr::Case { subject: Box::new(s2), clauses: out }
        },
        HirExpr::Fun { params, body } => {
            // lift inner closures first, then this one
            let b2 = extract_lambdas(body, collector);
            let params2 = copy_vars(params);
            // the captures: free variables of the body, minus the params
            let mut bound: Vec<u64> = Vec::new();
            let n = params2.len();
            let mut i: usize = 0;
            while i < n
                invariant
                    i <= n,
                    n == params2@.len(),
                decreases n - i,
            {
                bound.push(params2[i].ssa);
                i = i + 1;
            }
            let mut captures: Vec<AVariable> = Vec::new();
            free_vars(&b2, &mut bound, &mut captures);
            // the lifted function takes the captures, then the params
            let mut lifted_args = copy_vars(&captures);
            let mut k: usize = 0;
            let m = params2.len();
            while k < m
                invariant
                    k <= m,
                    m == params2@.len(),
                decreases m - k,
            {
                lifted_args.push(
                    AVariable { var: params2[k].var.clone(), ssa: params2[k].ssa },
                );
                k = k + 1;
            }
            let idx = collector.lifted.len();
            let lifted_arity = lifted_args.len();
            collector.lifted.push(
                LiftedLambda { captures, fun: HirFunction { args: lifted_args, body: b2 } },
            );
            proof {
                assert forall|j: int| 0 <= j < collector.lifted@.len() implies (
                #[trigger] collector.lifted@[j]).fun.body.closure_free() by {
                    if j < collector.lifted@.len() - 1 {
                        assert(collector.lifted@[j] == old(collector).lifted@[j]
                            || collector.lifted@[j].fun.body.closure_free());
                    }
                }
            }
            let env = collector.env_idx;
            let caps2 = copy_vars(&collector.lifted[idx].captures);
            HirExpr::BindClosure { env, idx, arity: lifted_arity, captures: caps2 }
        },
        HirExpr::BindClosure { env, idx, arity, captures } => {
            let caps2 = copy_vars(captures);
            HirExpr::BindClosure { env: *env, idx: *idx, arity: *arity, captures: caps2 }
        },
    }
}

/// Copy a pattern tree.
#[verifier::loop_isolation(false)]
pub fn copy_pattern(p: &HirPattern) -> (r: HirPattern)
    decreases p,
{
    match p {
        HirPattern::Wildcard => HirPattern::Wildcard,
        HirPattern::BindVar(v) => HirPattern::BindVar(
            AVariable { var: v.var.clone(), ssa: v.ssa },
        ),
        HirPattern::Tuple(elems) => {
            let mut out: Vec<HirPattern> = Vec::new();
            let n = elems.len();
            let mut i: usize = 0;
            while i < n
                invariant
                    i <= n,
                    n == elems@.len(),
                decreases n - i,
            {
                out.push(copy_pattern(&elems[i]));
                i = i + 1;
            }
            HirPattern::Tuple(out)
        },
        HirPattern::Cons(h, t) => HirPattern::Cons(
            Box::new(copy_pattern(h)),
            Box::new(copy_pattern(t)),
        ),
        HirPattern::Atomic(term) => HirPattern::Atomic(term.duplicate()),
    }
}

/// Copy an expression tree. A closure-free expression stays closure
/// free.
#[verifier::loop_isolation(false)]
pub fn copy_expr(e: &HirExpr) -> (r: HirExpr)
    ensures
        e.closure_free() ==> r.closure_free(),
    decreases e,
{
    match e {
        HirExpr::Variable(v) => HirExpr::Variable(AVariable { var: v.var.clone(), ssa: v.ssa }),
        HirExpr::Atomic(term) => HirExpr::Atomic(term.duplicate()),
        HirExpr::LocalFunction { name, arity } => HirExpr::LocalFunction {
            name: name.clone(),
            arity: *arity,
        },
        HirExpr::Tuple(elems) => HirExpr::Tuple(copy_exprs(elems)),
        HirExpr::Cons(h, t) => HirExpr::Cons(Box::new(copy_expr(h)), Box::new(copy_expr(t))),
        HirExpr::Apply { callee, args } => HirExpr::Apply {
            callee: Box::new(copy_expr(callee)),
            args: copy_exprs(args),
        },
        HirExpr::Match { var, value } => HirExpr::Match {
            var: AVariable { var: var.var.clone(), ssa: var.ssa },
            value: Box::new(copy_expr(value)),
        },
        HirExpr::Body { exprs } => HirExpr::Body { exprs: copy_exprs(exprs) },
        HirExpr::Case { subject, clauses } => {
            let s2 = copy_expr(subject);
            let mut out: Vec<HirClause> = Vec::new();
            let n = clauses.len();
            let mut i: usize = 0;
            proof {
                if e.closure_free() {
                    assert(HirExpr::closure_free_clauses(clauses@.skip(0))) by {
                        assert(clauses@.skip(0) =~= clauses@);
                    }
                }
            }
            while i < n
                invariant
                    i <= n,
                    n == clauses@.len(),
                    e.closure_free() ==> HirExpr::closure_free_clauses(clauses@.skip(i as int))
                        && HirExpr::closure_free_clauses(out@),
                decreases n - i,
            {
                proof {
                    if e.closure_free() {
                        assert(clauses@.skip(i as int)[0] == clauses@[i as int]);
                        assert(clauses@.skip(i as int).drop_first() =~= clauses@.skip(i + 1));
                    }
                }
                let b2 = copy_expr(&clauses[i].body);
                let p2 = copy_pattern(&clauses[i].pattern);
                proof {
                    if e.closure_free() {
                        lemma_cf_clauses_push(out@, HirClause { pattern: p2, body: b2 });
                    }
                }
                out.push(HirClause { pattern: p2, body: b2 });
                i = i + 1;
            }
            HirExpr::Case { subject: Box::new(s2), clauses: out }
        },
        HirExpr::Fun { params, body } => HirExpr::Fun {
            params: copy_vars(params),
            body: Box::new(copy_expr(body)),
        },
        HirExpr::BindClosure { env, idx, arity, captures } => HirExpr::BindClosure {
            env: *env,
            idx: *idx,
            arity: *arity,
            captures: copy_vars(captures),
        },
    }
}

/// Copy a list of expressions. A closure-free list stays closure free.
#[verifier::loop_isolation(false)]
pub fn copy_exprs(es: &Vec<HirExpr>) -> (r: Vec<HirExpr>)
    ensures
        HirExpr::closure_free_list(es@) ==> HirExpr::closure_free_list(r@),
    decreases es@,
{
    let mut out: Vec<HirExpr> = Vec::new();
    let n = es.len();
    let mut i: usize = 0;
    proof {
        if HirExpr::closure_free_list(es@) {
            assert(HirExpr::closure_free_list(es@.skip(0))) by {
                assert(es@.skip(0) =~= es@);
            }
        }
    }
    while i < n
        invariant
            i <= n,
            n == es@.len(),
            HirExpr::closure_free_list(es@) ==> HirExpr::closure_free_list(es@.skip(i as int))
                && HirExpr::closure_free_list(out@),
        decreases n - i,
    {
        proof {
            if HirExpr::closure_free_list(es@) {
                assert(es@.skip(i as int)[0] == es@[i as int]);
                assert(es@.skip(i as int).drop_first() =~= es@.skip(i + 1));
            }
        }
        let e2 = copy_expr(&es[i]);
        proof {
            if HirExpr::closure_free_list(es@) {
                lemma_cf_list_push(out@, e2);
            }
        }
        out.push(e2);
        i = i + 1;
    }
    out
}

/// Copy a list of patterns.
pub fn copy_patterns(ps: &Vec<HirPattern>) -> (r: Vec<HirPattern>)
{
    let mut out: Vec<HirPattern> = Vec::new();
    let n = ps.len();
    let mut i: usize = 0;
    while i < n
        invariant
            i <= n,
            n == ps@.len(),
        decreases n - i,
    {
        out.push(copy_pattern(&ps[i]));
        i = i + 1;
    }
    out
}

} // verus!
