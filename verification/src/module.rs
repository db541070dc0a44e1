//! The compiled module and the lowering pipeline.
//!
//! `from_parsed` takes a parsed module through the whole pipeline: SSA
//! assignment, lambda extraction, lowering to the block graph, atomic
//! propagation, branch simplification, tail-call promotion, and
//! validation around the passes. Every function of the result carries a
//! validated block graph of the High dialect level.

use vstd::prelude::*;
use crate::constant::AtomicTerm;
use crate::fun::{Dialect, Function, Value};
use crate::hir::{AVariable, HirClause, HirExpr, HirFunction, HirPattern, ParsedModule};
use crate::lambda::{extract_lambdas, LambdaCollector};
use crate::lower::{lower_tail, LowerError};
use crate::pass::{promote_tail_calls, simplify_branches};
use crate::propagate::propagate_atomics;
use crate::ssa::{assign_ssa_single_expression, ScopeTracker, SsaError};
use crate::text::usize_to_string;
use crate::validate::{validate, ValidationError};
use crate::FunctionIdent;

verus! {

/// Who may call a function.
#[derive(Copy, Clone, Debug, PartialEq, Eq, Structural)]
pub enum FunctionVisibility {
    /// Exported from the module.
    Public,
    /// Module-internal.
    Private,
    /// Synthesized by lambda extraction.
    Lambda,
}

/// One closure-creation group: the captured variables' dataflow
/// identifiers and the lifted functions sharing the environment.
#[derive(Debug)]
pub struct LambdaEnv {
    pub captures: Vec<u64>,
    pub functions: Vec<FunctionIdent>,
}

/// One function of the compiled module.
pub struct FunctionDefinition {
    pub ident: FunctionIdent,
    pub visibility: FunctionVisibility,
    pub hir_fun: HirFunction,
    pub lir_function: Option<Function>,
    pub lambda_env_idx: Option<usize>,
}

/// A compiled module: its functions, attributes and, after lambda
/// extraction, the lambda environments.
pub struct Module {
    pub name: String,
    pub attributes: Vec<(String, AtomicTerm)>,
    pub functions: Vec<FunctionDefinition>,
    pub lambda_envs: Option<Vec<LambdaEnv>>,
}

impl Module {
    /// The lambda environment of an extraction-produced index.
    pub fn get_env(&self, env_idx: usize) -> (r: &LambdaEnv)
        requires
            self.lambda_envs is Some,
            env_idx < self.lambda_envs.unwrap()@.len(),
        ensures
            *r == self.lambda_envs.unwrap()@[env_idx as int],
    {
        match &self.lambda_envs {
            Some(envs) => &envs[env_idx],
            None => {
                proof {
                    assert(false);
                }
                unreached()
            },
        }
    }
}

/// Why compilation stopped.
#[derive(Debug)]
pub enum CompileError {
    /// A clause's parameter count disagrees with the function's arity.
    ClauseArity { name: String },
    /// A function has no clauses.
    NoClauses { name: String },
    /// SSA assignment found a source defect or ran out of identifiers.
    Ssa(SsaError),
    /// Lowering found an inconsistency left by the earlier stages.
    Lower(LowerError),
    /// A lowered function failed validation.
    Invalid(ValidationError),
}

/// Every function of the module carries a validated block graph whose
/// entry block is set, terminated by an op, and takes the return
/// continuation followed by one argument per unit of the arity.
pub open spec fn module_compiled(m: Module) -> bool {
    forall|i: int|
        0 <= i < m.functions@.len() ==> (#[trigger] m.functions@[i]).lir_function is Some
            && m.functions@[i].lir_function.unwrap().wf()
            && m.functions@[i].lir_function.unwrap().graph_wf()
            && m.functions@[i].lir_function.unwrap().valid_function(Dialect::High)
            && m.functions@[i].lir_function.unwrap().entry_block is Some
            && m.functions@[i].lir_function.unwrap().args_seq(
            m.functions@[i].lir_function.unwrap().entry_block.unwrap(),
        ).len() == 1 + m.functions@[i].ident.arity && m.functions@[i].lir_function.unwrap().op_of(
            m.functions@[i].lir_function.unwrap().entry_block.unwrap(),
        ) is Some
}

/// How many lifted functions the lambda environments record in all.
pub open spec fn lifted_count(envs: Seq<LambdaEnv>) -> nat
    decreases envs.len(),
{
    if envs.len() == 0 {
        0
    } else {
        lifted_count(envs.drop_last()) + envs.last().functions@.len()
    }
}

/// Appending one environment adds its functions to the count.
proof fn lemma_lifted_count_push(envs: Seq<LambdaEnv>, e: LambdaEnv)
    ensures
        lifted_count(envs.push(e)) == lifted_count(envs) + e.functions@.len(),
{
    assert(envs.push(e).drop_last() =~= envs);
    assert(envs.push(e).last() == e);
}

/// Input function `i` appears in the compiled module under its name,
/// arity, module and visibility.
pub open spec fn signature_kept(parsed: ParsedModule, m: Module, i: int) -> bool {
    exists|j: int|
        0 <= j < m.functions@.len() && (#[trigger] m.functions@[j]).ident.name@
            == parsed.functions@[i].name@ && m.functions@[j].ident.arity
            == parsed.functions@[i].arity && m.functions@[j].ident.module@ == parsed.name@
            && m.functions@[j].visibility == (if parsed.functions@[i].public {
            FunctionVisibility::Public
        } else {
            FunctionVisibility::Private
        })
}

/// Every input function appears in the compiled module under its name,
/// arity, module and visibility; lifted closures only add functions.
pub open spec fn preserves_signatures(parsed: ParsedModule, m: Module) -> bool {
    &&& m.functions@.len() >= parsed.functions@.len()
    &&& forall|i: int|
        0 <= i < parsed.functions@.len() ==> #[trigger] signature_kept(parsed, m, i)
}

/// Lower one scoped function into a fresh block graph. The entry block
/// takes the return continuation first and then one argument per formal
/// parameter.
#[verifier::loop_isolation(false)]
pub fn lower_function(module_name: &String, name: &String, hf: &HirFunction) -> (r: Result<
    Function,
    LowerError,
>)
    requires
        hf.body.closure_free(),
    ensures
        match r {
            Ok(f) => f.wf() && f.graph_wf() && f.entry_block is Some && f.args_seq(
                f.entry_block.unwrap(),
            ).len() == 1 + hf.args@.len() && f.op_of(f.entry_block.unwrap()) is Some
                && f.ident.module@ == module_name@ && f.ident.name@ == name@ && f.ident.arity
                == hf.args@.len(),
            Err(_) => true,
        },
{
    let ident = FunctionIdent {
        module: module_name.clone(),
        name: name.clone(),
        arity: hf.args.len(),
    };
    let mut f = Function::new(ident);
    let ghost fid = f.ident;
    proof {
        assert(fid.module@ == module_name@);
        assert(fid.name@ == name@);
        assert(fid.arity == hf.args@.len());
    }
    let entry = f.block_insert();
    f.block_set_entry(entry);
    // the return continuation, then the formal parameters
    let ret = f.block_arg_insert(entry);
    let mut env: Vec<(u64, Value)> = Vec::new();
    let n = hf.args.len();
    let mut i: usize = 0;
    while i < n
        invariant
            i <= n,
            n == hf.args@.len(),
            f.wf(),
            f.graph_wf(),
            f.entry_block == Some(entry),
            f.valid_block(entry),
            f.op_of(entry) is None,
            f.args_seq(entry).len() == 1 + i,
            f.valid_value(ret),
            f.env_ok(env@),
            f.ident == fid,
        decreases n - i,
    {
        let v = f.block_arg_insert(entry);
        env.push((hf.args[i].ssa, v));
        proof {
            assert forall|j: int| 0 <= j < env@.len() implies f.valid_value(
                (#[trigger] env@[j]).1,
            ) by {
                if j < env@.len() - 1 {
                } else {
                    assert(env@[j].1 == v);
                }
            }
        }
        i = i + 1;
    }
    let mut exc: Option<Value> = None;
    let ghost fpre = f;
    match lower_tail(&mut f, &mut env, module_name, name, &mut exc, entry, &hf.body, ret) {
        Ok(_) => {
            proof {
                assert(f.args_seq(entry) == fpre.args_seq(entry));
                assert(f.ident == fpre.ident);
            }
            Ok(f)
        },
        Err(er) => Err(er),
    }
}

/// Run one lowered function through the pass pipeline: atomic
/// propagation, branch simplification, validation, tail-call promotion,
/// and validation again, at the High dialect level. Success is reported
/// exactly when the function left behind validates; on success the
/// result is the image of the three pass relations in order, with the
/// entry block and its arguments untouched.
pub fn run_passes(f: &mut Function) -> (r: Result<(), ValidationError>)
    requires
        old(f).wf(),
        old(f).graph_wf(),
    ensures
        final(f).wf(),
        final(f).graph_wf(),
        r is Ok <==> final(f).valid_function(Dialect::High),
        final(f).entry_block == old(f).entry_block,
        match old(f).entry_block {
            Some(e) => final(f).args_seq(e) == old(f).args_seq(e) && (old(f).op_of(e) is Some
                ==> final(f).op_of(e) is Some),
            None => true,
        },
        r is Ok ==> exists|f1: Function, f2: Function|
            crate::propagate::sweep_shape(*old(f), f1) && (forall|t: crate::fun::Block, i: int|
                !f1.arg_eliminable(t, i)) && #[trigger] crate::pass::branches_simplified(f1, f2)
                && crate::pass::tails_promoted(f2, *final(f)),
{
    let ghost f0 = *old(f);
    propagate_atomics(f);
    let ghost f1 = *f;
    simplify_branches(f);
    let ghost f2 = *f;
    proof {
        lemma_entry_preserved_by_simplify(f1, f2);
    }
    match validate(f, Dialect::High) {
        Ok(_) => {},
        Err(e) => {
            return Err(e);
        },
    }
    promote_tail_calls(f);
    proof {
        lemma_entry_preserved_by_promote(f2, *f);
    }
    match validate(f, Dialect::High) {
        Ok(_) => {},
        Err(e) => {
            return Err(e);
        },
    }
    proof {
        assert(crate::propagate::sweep_shape(f0, f1) && (forall|t: crate::fun::Block, i: int|
            !f1.arg_eliminable(t, i)) && crate::pass::branches_simplified(f1, f2)
            && crate::pass::tails_promoted(f2, *f));
    }
    Ok(())
}

/// Branch simplification keeps the entry block, its arguments, and the
/// presence of its op.
proof fn lemma_entry_preserved_by_simplify(pre: Function, post: Function)
    requires
        crate::pass::branches_simplified(pre, post),
    ensures
        post.entry_block == pre.entry_block,
        match pre.entry_block {
            Some(e) => pre.valid_block(e) ==> post.args_seq(e) == pre.args_seq(e) && (pre.op_of(e)
                is Some ==> post.op_of(e) is Some),
            None => true,
        },
{
    match pre.entry_block {
        Some(e) => {
            if pre.valid_block(e) {
                assert(post.args_seq(e) == pre.args_seq(e));
                assert(Function::branch_simplified(pre, post, e));
            }
        },
        None => {},
    }
}

/// Tail-call promotion keeps the entry block, its arguments, and the
/// presence of its op.
proof fn lemma_entry_preserved_by_promote(pre: Function, post: Function)
    requires
        crate::pass::tails_promoted(pre, post),
    ensures
        post.entry_block == pre.entry_block,
        match pre.entry_block {
            Some(e) => pre.valid_block(e) ==> post.args_seq(e) == pre.args_seq(e) && (pre.op_of(e)
                is Some ==> post.op_of(e) is Some),
            None => true,
        },
{
    match pre.entry_block {
        Some(e) => {
            if pre.valid_block(e) {
                assert(post.args_seq(e) == pre.args_seq(e));
                assert(Function::tail_promoted(pre, post, e));
            }
        },
        None => {},
    }
}

/// Copy a variable list.
fn copy_vars(vs: &Vec<AVariable>) -> (r: Vec<AVariable>)
    ensures
        r@.len() == vs@.len(),
{
    let mut out: Vec<AVariable> = Vec::new();
    let n = vs.len();
    let mut i: usize = 0;
    while i < n
        invariant
            i <= n,
            n == vs@.len(),
            out@.len() == i,
        decreases n - i,
    {
        out.push(AVariable { var: vs[i].var.clone(), ssa: vs[i].ssa });
        i = i + 1;
    }
    out
}

/// A parsed function has at least one clause and every clause's
/// parameter count equals the declared arity.
pub open spec fn clauses_well_formed(pf: crate::hir::ParsedFunction) -> bool {
    &&& pf.clauses@.len() > 0
    &&& forall|j: int|
        0 <= j < pf.clauses@.len() ==> (#[trigger] pf.clauses@[j]).params@.len() == pf.arity
}

/// Merge a parsed function's clauses into one scoped body: a single
/// clause whose parameters are all plain variables binds them directly;
/// anything else becomes a case over the tuple of the parameters.
#[verifier::loop_isolation(false)]
fn merge_clauses(pf: &crate::hir::ParsedFunction) -> (r: Result<HirFunction, CompileError>)
    ensures
        r is Ok <==> clauses_well_formed(*pf),
        (match r {
            Ok(h) => h.args@.len() == pf.arity,
            Err(CompileError::NoClauses { name }) => pf.clauses@.len() == 0 && name@ == pf.name@,
            Err(CompileError::ClauseArity { name }) => (exists|j: int|
                0 <= j < pf.clauses@.len() && (#[trigger] pf.clauses@[j]).params@.len()
                    != pf.arity) && name@ == pf.name@,
            Err(_) => false,
        }),
{
    if pf.clauses.len() == 0 {
        return Err(CompileError::NoClauses { name: pf.name.clone() });
    }
    // reject clauses whose parameter count disagrees with the arity
    let mut ci: usize = 0;
    let nclauses = pf.clauses.len();
    while ci < nclauses
        invariant
            ci <= nclauses,
            nclauses == pf.clauses@.len(),
            forall|j: int| 0 <= j < ci ==> (#[trigger] pf.clauses@[j]).params@.len() == pf.arity,
        decreases nclauses - ci,
    {
        if pf.clauses[ci].params.len() != pf.arity {
            proof {
                assert(pf.clauses@[ci as int].params@.len() != pf.arity);
            }
            return Err(CompileError::ClauseArity { name: pf.name.clone() });
        }
        ci = ci + 1;
    }
    proof {
        assert(clauses_well_formed(*pf));
    }
    if pf.clauses.len() == 1 {
        // all-variable parameters bind directly
        let mut all_vars = true;
        let np = pf.clauses[0].params.len();
        let mut k: usize = 0;
        while k < np
            invariant
                k <= np,
                np == pf.clauses@[0].params@.len(),
                all_vars ==> forall|j: int|
                    0 <= j < k ==> (#[trigger] pf.clauses@[0].params@[j]) is BindVar,
            decreases np - k,
        {
            match &pf.clauses[0].params[k] {
                HirPattern::BindVar(_) => {},
                _ => {
                    all_vars = false;
                },
            }
            k = k + 1;
        }
        if all_vars {
            let mut args: Vec<AVariable> = Vec::new();
            let mut k2: usize = 0;
            while k2 < np
                invariant
                    k2 <= np,
                    np == pf.clauses@[0].params@.len(),
                    args@.len() == k2,
                    forall|j: int|
                        0 <= j < np ==> (#[trigger] pf.clauses@[0].params@[j]) is BindVar,
                decreases np - k2,
            {
                match &pf.clauses[0].params[k2] {
                    HirPattern::BindVar(v) => {
                        args.push(AVariable { var: v.var.clone(), ssa: 0 });
                    },
                    _ => {
                        proof {
                            assert(false);
                        }
                    },
                }
                k2 = k2 + 1;
            }
            proof {
                assert(np == pf.arity) by {
                    assert(pf.clauses@[0].params@.len() == pf.arity);
                }
            }
            let body = crate::lambda::copy_exprs(&pf.clauses[0].body);
            return Ok(HirFunction { args, body: HirExpr::Body { exprs: body } });
        }
    }
    // several clauses, or patterns among the parameters: dispatch on the
    // tuple of fresh parameter variables
    let mut args: Vec<AVariable> = Vec::new();
    let mut elems: Vec<HirExpr> = Vec::new();
    let mut k: usize = 0;
    while k < pf.arity
        invariant
            k <= pf.arity,
            args@.len() == k,
            clauses_well_formed(*pf),
        decreases pf.arity - k,
    {
        let mut nm = String::new();
        nm.append("@");
        nm.append(usize_to_string(k).as_str());
        args.push(AVariable { var: nm.clone(), ssa: 0 });
        elems.push(HirExpr::Variable(AVariable { var: nm, ssa: 0 }));
        k = k + 1;
    }
    let mut clauses: Vec<HirClause> = Vec::new();
    let mut ci2: usize = 0;
    while ci2 < nclauses
        invariant
            ci2 <= nclauses,
            nclauses == pf.clauses@.len(),
            clauses_well_formed(*pf),
        decreases nclauses - ci2,
    {
        let pats = crate::lambda::copy_patterns(&pf.clauses[ci2].params);
        let body = crate::lambda::copy_exprs(&pf.clauses[ci2].body);
        clauses.push(
            HirClause { pattern: HirPattern::Tuple(pats), body: HirExpr::Body { exprs: body } },
        );
        ci2 = ci2 + 1;
    }
    Ok(
        HirFunction {
            args,
            body: HirExpr::Case {
                subject: Box::new(HirExpr::Tuple(elems)),
                clauses,
            },
        },
    )
}

/// Compile a parsed module: merge clauses into scoped functions, assign
/// dataflow identifiers, lift the closures, lower everything to block
/// graphs and run the passes, validating at the High dialect level.
#[verifier::loop_isolation(false)]
pub fn from_parsed(parsed: &ParsedModule) -> (r: Result<Module, CompileError>)
    ensures
        match r {
            Ok(m) => module_compiled(m) && m.name@ == parsed.name@ && m.attributes@.len()
                == parsed.attributes@.len() && m.lambda_envs is Some,
            Err(_) => true,
        },
        // success demands well-shaped input, and the two input-shape
        // errors name a function that truly violates
        r is Ok ==> forall|i: int|
            0 <= i < parsed.functions@.len() ==> clauses_well_formed(
                #[trigger] parsed.functions@[i],
            ),
        (match r {
            Err(CompileError::NoClauses { name }) => exists|i: int|
                0 <= i < parsed.functions@.len() && (#[trigger] parsed.functions@[i]).clauses@.len()
                    == 0 && name@ == parsed.functions@[i].name@,
            Err(CompileError::ClauseArity { name }) => exists|i: int|
                0 <= i < parsed.functions@.len() && !clauses_well_formed(
                    #[trigger] parsed.functions@[i],
                ) && (parsed.functions@[i]).clauses@.len() > 0 && name@
                    == parsed.functions@[i].name@,
            _ => true,
        }),
        // every input function comes out under its name, arity and
        // visibility; lifted closures only add functions
        (match r {
            Ok(m) => preserves_signatures(*parsed, m) && m.functions@.len()
                == parsed.functions@.len() + lifted_count(m.lambda_envs.unwrap()@),
            Err(_) => true,
        }),
{
    // merge clauses and assign dataflow identifiers
    let mut tracker = ScopeTracker::new();
    let mut hirs: Vec<(String, bool, HirFunction)> = Vec::new();
    let nf = parsed.functions.len();
    let mut i: usize = 0;
    while i < nf
        invariant
            i <= nf,
            nf == parsed.functions@.len(),
            tracker.wf(),
            tracker.scopes@.len() == 0,
            hirs@.len() == i,
            forall|j: int| 0 <= j < i ==> clauses_well_formed(#[trigger] parsed.functions@[j]),
            forall|j: int|
                0 <= j < i ==> (#[trigger] hirs@[j]).0@ == parsed.functions@[j].name@ && hirs@[j].1
                    == parsed.functions@[j].public && hirs@[j].2.args@.len()
                    == parsed.functions@[j].arity,
        decreases nf - i,
    {
        let merged = match merge_clauses(&parsed.functions[i]) {
            Ok(h) => h,
            Err(e) => {
                proof {
                    assert(!clauses_well_formed(parsed.functions@[i as int]));
                }
                return Err(e);
            },
        };
        tracker.push_scope();
        let mut args2: Vec<AVariable> = Vec::new();
        let na = merged.args.len();
        let mut k: usize = 0;
        while k < na
            invariant
                k <= na,
                na == merged.args@.len(),
                args2@.len() == k,
                tracker.wf(),
                tracker.scopes@.len() == 1,
            decreases na - k,
        {
            let id = match tracker.new_ssa() {
                Ok(id) => id,
                Err(e) => {
                    return Err(CompileError::Ssa(e));
                },
            };
            tracker.bind(merged.args[k].var.clone(), id);
            args2.push(AVariable { var: merged.args[k].var.clone(), ssa: id });
            k = k + 1;
        }
        let body2 = match assign_ssa_single_expression(&mut tracker, &merged.body) {
            Ok(b) => b,
            Err(e) => {
                tracker.pop_scope();
                return Err(CompileError::Ssa(e));
            },
        };
        tracker.pop_scope();
        hirs.push((parsed.functions[i].name.clone(), parsed.functions[i].public, HirFunction { args: args2, body: body2 }));
        i = i + 1;
    }
    // lift the closures; one lambda environment per host function that
    // has any
    let mut envs: Vec<LambdaEnv> = Vec::new();
    let mut defs: Vec<(String, FunctionVisibility, Option<usize>, HirFunction)> = Vec::new();
    let nh = hirs.len();
    let mut i2: usize = 0;
    while i2 < nh
        invariant
            i2 <= nh,
            nh == hirs@.len(),
            defs@.len() >= i2,
            defs@.len() == i2 + lifted_count(envs@),
            forall|j: int|
                0 <= j < defs@.len() ==> (#[trigger] defs@[j]).3.body.closure_free(),
            forall|hi: int|
                0 <= hi < i2 ==> exists|dj: int|
                    0 <= dj < defs@.len() && (#[trigger] defs@[dj]).0@ == (
                    #[trigger] hirs@[hi]).0@ && defs@[dj].3.args@.len() == hirs@[hi].2.args@.len()
                        && defs@[dj].1 == (if hirs@[hi].1 {
                        FunctionVisibility::Public
                    } else {
                        FunctionVisibility::Private
                    }),
        decreases nh - i2,
    {
        let ghost defs_start = defs@;
        let host_name = hirs[i2].0.clone();
        let host_public = hirs[i2].1;
        let mut collector = LambdaCollector::new(envs.len());
        let body2 = extract_lambdas(&hirs[i2].2.body, &mut collector);
        let args2 = copy_vars(&hirs[i2].2.args);
        let lifted = collector.finish();
        if lifted.len() > 0 {
            let env_idx = envs.len();
            let mut env_captures: Vec<u64> = Vec::new();
            let mut env_functions: Vec<FunctionIdent> = Vec::new();
            let nl = lifted.len();
            let mut li: usize = 0;
            while li < nl
                invariant
                    li <= nl,
                    nl == lifted@.len(),
                    env_functions@.len() == li,
                    defs@.len() == defs_start.len() + li,
                    defs@.len() >= defs_start.len(),
                    forall|j: int| 0 <= j < defs_start.len() ==> #[trigger] defs@[j] == defs_start[j],
                    forall|j: int|
                        0 <= j < lifted@.len() ==> (#[trigger] lifted@[j]).fun.body.closure_free(),
                    forall|j: int|
                        0 <= j < defs@.len() ==> (#[trigger] defs@[j]).3.body.closure_free(),
                decreases nl - li,
            {
                let mut lname = host_name.clone();
                lname.append("$");
                lname.append(usize_to_string(li).as_str());
                let lf = &lifted[li];
                let mut cc: usize = 0;
                let ncaps = lf.captures.len();
                while cc < ncaps
                    invariant
                        cc <= ncaps,
                        ncaps == lifted@[li as int].captures@.len(),
                        li < nl,
                    decreases ncaps - cc,
                {
                    env_captures.push(lf.captures[cc].ssa);
                    cc = cc + 1;
                }
                env_functions.push(
                    FunctionIdent {
                        module: parsed.name.clone(),
                        name: lname.clone(),
                        arity: lf.fun.args.len(),
                    },
                );
                let largs = copy_vars(&lf.fun.args);
                let lbody = crate::lambda::copy_expr(&lf.fun.body);
                proof {
                    assert(lifted@[li as int].fun.body.closure_free());
                }
                defs.push(
                    (lname, FunctionVisibility::Lambda, Some(env_idx), HirFunction {
                        args: largs,
                        body: lbody,
                    }),
                );
                li = li + 1;
            }
            proof {
                lemma_lifted_count_push(
                    envs@,
                    LambdaEnv { captures: env_captures, functions: env_functions },
                );
            }
            envs.push(LambdaEnv { captures: env_captures, functions: env_functions });
            defs.push(
                (host_name, if host_public {
                    FunctionVisibility::Public
                } else {
                    FunctionVisibility::Private
                }, None, HirFunction { args: args2, body: body2 }),
            );
        } else {
            defs.push(
                (host_name, if host_public {
                    FunctionVisibility::Public
                } else {
                    FunctionVisibility::Private
                }, None, HirFunction { args: args2, body: body2 }),
            );
        }
        proof {
            assert forall|hi: int| 0 <= hi < i2 + 1 implies exists|dj: int|
                0 <= dj < defs@.len() && (#[trigger] defs@[dj]).0@ == (#[trigger] hirs@[hi]).0@
                    && defs@[dj].3.args@.len() == hirs@[hi].2.args@.len() && defs@[dj].1 == (
                if hirs@[hi].1 {
                    FunctionVisibility::Public
                } else {
                    FunctionVisibility::Private
                }) by {
                if hi < i2 {
                    let dj = choose|dj: int|
                        0 <= dj < defs_start.len() && (#[trigger] defs_start[dj]).0@
                            == hirs@[hi].0@ && defs_start[dj].3.args@.len()
                            == hirs@[hi].2.args@.len() && defs_start[dj].1 == (if hirs@[hi].1 {
                            FunctionVisibility::Public
                        } else {
                            FunctionVisibility::Private
                        });
                    assert(defs@[dj] == defs_start[dj]);
                } else {
                    let dj = defs@.len() - 1;
                    assert((defs@[dj]).0@ == hirs@[hi].0@);
                }
            }
        }
        i2 = i2 + 1;
    }
    // lower every function and run the passes
    let mut functions: Vec<FunctionDefinition> = Vec::new();
    let nd = defs.len();
    let mut i3: usize = 0;
    while i3 < nd
        invariant
            i3 <= nd,
            nd == defs@.len(),
            forall|j: int|
                0 <= j < defs@.len() ==> (#[trigger] defs@[j]).3.body.closure_free(),
            functions@.len() == i3,
            forall|j: int|
                0 <= j < i3 ==> (#[trigger] functions@[j]).ident.name@ == defs@[j].0@
                    && functions@[j].ident.arity == defs@[j].3.args@.len()
                    && functions@[j].ident.module@ == parsed.name@ && functions@[j].visibility
                    == defs@[j].1,
            forall|j: int|
                0 <= j < functions@.len() ==> (#[trigger] functions@[j]).lir_function is Some
                    && functions@[j].lir_function.unwrap().wf()
                    && functions@[j].lir_function.unwrap().graph_wf()
                    && functions@[j].lir_function.unwrap().valid_function(Dialect::High)
                    && functions@[j].lir_function.unwrap().entry_block is Some
                    && functions@[j].lir_function.unwrap().args_seq(
                    functions@[j].lir_function.unwrap().entry_block.unwrap(),
                ).len() == 1 + functions@[j].ident.arity
                    && functions@[j].lir_function.unwrap().op_of(
                    functions@[j].lir_function.unwrap().entry_block.unwrap(),
                ) is Some,
        decreases nd - i3,
    {
        let name = defs[i3].0.clone();
        let vis = defs[i3].1;
        let env_idx = defs[i3].2;
        let mut lir = match lower_function(&parsed.name, &name, &defs[i3].3) {
            Ok(f) => f,
            Err(e) => {
                return Err(CompileError::Lower(e));
            },
        };
        match run_passes(&mut lir) {
            Ok(_) => {},
            Err(e) => {
                return Err(CompileError::Invalid(e));
            },
        }
        let arity = defs[i3].3.args.len();
        let hir_args = copy_vars(&defs[i3].3.args);
        let hir_body = crate::lambda::copy_expr(&defs[i3].3.body);
        let ghost lir_snap = lir;
        functions.push(
            FunctionDefinition {
                ident: FunctionIdent { module: parsed.name.clone(), name, arity },
                visibility: vis,
                hir_fun: HirFunction { args: hir_args, body: hir_body },
                lir_function: Some(lir),
                lambda_env_idx: env_idx,
            },
        );
        proof {
            assert forall|j: int|
                0 <= j < functions@.len() implies (#[trigger] functions@[j]).lir_function is Some
                && functions@[j].lir_function.unwrap().wf()
                && functions@[j].lir_function.unwrap().graph_wf()
                && functions@[j].lir_function.unwrap().valid_function(Dialect::High)
                && functions@[j].lir_function.unwrap().entry_block is Some
                && functions@[j].lir_function.unwrap().args_seq(
                functions@[j].lir_function.unwrap().entry_block.unwrap(),
            ).len() == 1 + functions@[j].ident.arity && functions@[j].lir_function.unwrap().op_of(
                functions@[j].lir_function.unwrap().entry_block.unwrap(),
            ) is Some by {
                if j < functions@.len() - 1 {
                    assert(functions@[j] == functions@.drop_last()[j]);
                } else {
                    assert(functions@[j].lir_function == Some(lir_snap));
                    assert(functions@[j].ident.arity == arity);
                }
            }
        }
        i3 = i3 + 1;
    }
    let mut attributes: Vec<(String, AtomicTerm)> = Vec::new();
    let natt = parsed.attributes.len();
    let mut ai: usize = 0;
    while ai < natt
        invariant
            ai <= natt,
            natt == parsed.attributes@.len(),
            attributes@.len() == ai,
        decreases natt - ai,
    {
        attributes.push(
            (parsed.attributes[ai].0.clone(), parsed.attributes[ai].1.duplicate()),
        );
        ai = ai + 1;
    }
    let result = Module {
        name: parsed.name.clone(),
        attributes,
        functions,
        lambda_envs: Some(envs),
    };
    proof {
        // every input function appears in the output under its name,
        // arity and visibility
        assert(result.functions@.len() >= parsed.functions@.len());
        {
            assert forall|i: int|
                0 <= i < parsed.functions@.len() implies #[trigger] signature_kept(
                *parsed,
                result,
                i,
            ) by {
                assert(hirs@[i].0@ == parsed.functions@[i].name@);
                let dj = choose|dj: int|
                    0 <= dj < defs@.len() && (#[trigger] defs@[dj]).0@ == hirs@[i].0@
                        && defs@[dj].3.args@.len() == hirs@[i].2.args@.len() && defs@[dj].1 == (
                    if hirs@[i].1 {
                        FunctionVisibility::Public
                    } else {
                        FunctionVisibility::Private
                    });
                assert(result.functions@[dj].ident.name@ == defs@[dj].0@);
                assert(result.functions@[dj].ident.arity == defs@[dj].3.args@.len());
                assert(result.functions@[dj].visibility == defs@[dj].1);
                assert(result.functions@[dj].ident.module@ == parsed.name@);
                assert(0 <= dj < result.functions@.len() && (
                #[trigger] result.functions@[dj]).ident.name@ == parsed.functions@[i].name@
                    && result.functions@[dj].ident.arity == parsed.functions@[i].arity
                    && result.functions@[dj].ident.module@ == parsed.name@
                    && result.functions@[dj].visibility == (if parsed.functions@[i].public {
                    FunctionVisibility::Public
                } else {
                    FunctionVisibility::Private
                }));
                assert(signature_kept(*parsed, result, i));
            }
        }
        assert(preserves_signatures(*parsed, result));
        assert(result.functions@.len() == parsed.functions@.len() + lifted_count(
            result.lambda_envs.unwrap()@,
        ));
        assert(module_compiled(result)) by {
            assert forall|j: int|
                0 <= j < result.functions@.len() implies (
            #[trigger] result.functions@[j]).lir_function is Some
                && result.functions@[j].lir_function.unwrap().wf()
                && result.functions@[j].lir_function.unwrap().graph_wf()
                && result.functions@[j].lir_function.unwrap().valid_function(Dialect::High)
                && result.functions@[j].lir_function.unwrap().entry_block is Some
                && result.functions@[j].lir_function.unwrap().args_seq(
                result.functions@[j].lir_function.unwrap().entry_block.unwrap(),
            ).len() == 1 + result.functions@[j].ident.arity
                && result.functions@[j].lir_function.unwrap().op_of(
                result.functions@[j].lir_function.unwrap().entry_block.unwrap(),
            ) is Some by {}
        }
    }
    Ok(result)
}

} // verus!
