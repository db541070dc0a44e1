//! Tests of the whole lowering pipeline, one source program at a time,
//! and of the textual renderings.

use eir::constant::AtomicTerm;
use eir::fun::{Block, Dialect, Function};
use eir::hir::{AVariable, HirExpr, HirPattern, ParsedClause, ParsedFunction, ParsedModule};
use eir::module::{from_parsed, FunctionVisibility, Module};
use eir::op::OpKind;
use eir::text::{format_label, function_to_dot, usize_to_string, BufferTextFormatter, TextFormatter};
use eir::validate::{validate, ValidationError};

fn var(name: &str) -> HirExpr {
    HirExpr::Variable(AVariable::new(name.to_string()))
}

fn avar(name: &str) -> AVariable {
    AVariable::new(name.to_string())
}

fn bind(name: &str) -> HirPattern {
    HirPattern::BindVar(AVariable::new(name.to_string()))
}

fn parsed_module(functions: Vec<ParsedFunction>) -> ParsedModule {
    ParsedModule { name: "scenarios".to_string(), attributes: vec![], functions }
}

fn compile(functions: Vec<ParsedFunction>) -> Module {
    from_parsed(&parsed_module(functions)).expect("the module should compile")
}

fn lir_of<'a>(m: &'a Module, name: &str) -> &'a Function {
    for def in m.functions.iter() {
        if def.ident.name == name {
            return def.lir_function.as_ref().unwrap();
        }
    }
    panic!("no function of that name");
}

/// `foo() -> 42.`: one block whose op is a tail call to the return
/// continuation carrying the constant, and propagation has nothing to do.
#[test]
fn constant_function_is_one_block() {
    let m = compile(vec![ParsedFunction {
        name: "foo".to_string(),
        arity: 0,
        clauses: vec![ParsedClause { params: vec![], body: vec![HirExpr::Atomic(AtomicTerm::Int(42))] }],
        public: true,
    }]);
    let f = lir_of(&m, "foo");
    assert_eq!(f.blocks.len(), 1);
    let entry = f.block_entry();
    assert_eq!(f.entry_arg_num(), 1);
    assert_eq!(f.block_kind(entry), Some(OpKind::CallFlow));
    let reads = f.block_reads(entry);
    assert_eq!(reads.len(), 2);
    assert_eq!(reads[0], f.block_args(entry)[0]);
    match f.value_literal(reads[1]) {
        Some(AtomicTerm::Int(v)) => assert_eq!(*v, 42),
        other => panic!("expected the constant, got {:?}", other),
    }
    assert!(f.block_successors(entry).is_empty());
}

/// `id(X) -> X.`: the entry takes the return continuation and `X`, and
/// tail-calls the continuation with `X`.
#[test]
fn identity_tail_calls_its_argument() {
    let m = compile(vec![ParsedFunction {
        name: "id".to_string(),
        arity: 1,
        clauses: vec![ParsedClause { params: vec![bind("X")], body: vec![var("X")] }],
        public: true,
    }]);
    let f = lir_of(&m, "id");
    let entry = f.block_entry();
    let args = f.block_args(entry);
    assert_eq!(args.len(), 2);
    assert_eq!(f.block_kind(entry), Some(OpKind::CallFlow));
    assert_eq!(f.block_reads(entry), vec![args[0], args[1]]);
}

/// `pair(A, B) -> {A, B}.`: a tuple-construct op whose result goes to
/// the return continuation; the block has no successors.
#[test]
fn pair_constructs_tuple_for_return() {
    let m = compile(vec![ParsedFunction {
        name: "pair".to_string(),
        arity: 2,
        clauses: vec![ParsedClause {
            params: vec![bind("A"), bind("B")],
            body: vec![HirExpr::Tuple(vec![var("A"), var("B")])],
        }],
        public: true,
    }]);
    let f = lir_of(&m, "pair");
    let entry = f.block_entry();
    let args = f.block_args(entry);
    assert_eq!(args.len(), 3);
    assert_eq!(f.block_kind(entry), Some(OpKind::MakeTuple));
    assert_eq!(f.block_reads(entry), vec![args[0], args[1], args[2]]);
    assert!(f.block_successors(entry).is_empty());
}

/// `fun_shadowing(A) -> C = fun(B) -> B end, C(A).`: after extraction
/// two top-level functions exist; the lambda's parameter shadows any
/// outer name, so the outer `A` is not captured; the lifted function's
/// arity is one, and its definition carries the lambda environment index.
#[test]
fn closure_is_lifted_with_its_captures() {
    let m = compile(vec![ParsedFunction {
        name: "fun_shadowing".to_string(),
        arity: 1,
        clauses: vec![ParsedClause {
            params: vec![bind("A")],
            body: vec![
                HirExpr::Match {
                    var: avar("C"),
                    value: Box::new(HirExpr::Fun {
                        params: vec![avar("B")],
                        body: Box::new(HirExpr::Body { exprs: vec![var("B")] }),
                    }),
                },
                HirExpr::Apply { callee: Box::new(var("C")), args: vec![var("A")] },
            ],
        }],
        public: true,
    }]);
    assert_eq!(m.functions.len(), 2);
    let lambda = m
        .functions
        .iter()
        .find(|d| matches!(d.visibility, FunctionVisibility::Lambda))
        .expect("one lifted function");
    assert_eq!(lambda.ident.name, "fun_shadowing$0");
    assert_eq!(lambda.ident.arity, 1);
    assert_eq!(lambda.lambda_env_idx, Some(0));
    let envs = m.lambda_envs.as_ref().unwrap();
    assert_eq!(envs.len(), 1);
    // the parameter B shadows everything outer: no capture
    assert_eq!(m.get_env(0).captures.len(), 0);
    assert_eq!(m.get_env(0).functions.len(), 1);
    assert_eq!(m.get_env(0).functions[0].arity, 1);
}

/// A closure body that really uses an outer variable captures it: the
/// lifted function takes the capture first, then its own parameter.
#[test]
fn closure_captures_outer_variable() {
    let m = compile(vec![ParsedFunction {
        name: "make_adder".to_string(),
        arity: 1,
        clauses: vec![ParsedClause {
            params: vec![bind("A")],
            body: vec![HirExpr::Fun {
                params: vec![avar("B")],
                body: Box::new(HirExpr::Body {
                    exprs: vec![HirExpr::Tuple(vec![var("A"), var("B")])],
                }),
            }],
        }],
        public: false,
    }]);
    assert_eq!(m.functions.len(), 2);
    let lambda = m
        .functions
        .iter()
        .find(|d| matches!(d.visibility, FunctionVisibility::Lambda))
        .unwrap();
    // one capture plus one parameter
    assert_eq!(lambda.ident.arity, 2);
    assert_eq!(m.get_env(0).captures.len(), 1);
    // the host materializes the closure over the captured value
    let host = lir_of(&m, "make_adder");
    let mut saw_bind_closure = false;
    for i in 0..host.blocks.len() {
        if let Some(OpKind::BindClosure { env, .. }) = host.block_kind(Block(i)) {
            saw_bind_closure = true;
            assert_eq!(env, 0);
        }
    }
    assert!(saw_bind_closure);
}

/// `case A of {B} -> B end`: the lowered function validates at the High
/// level and fails validation at the Normal level with a dialect
/// mismatch.
#[test]
fn case_is_high_dialect_only() {
    let m = compile(vec![ParsedFunction {
        name: "case_id".to_string(),
        arity: 1,
        clauses: vec![ParsedClause {
            params: vec![bind("A")],
            body: vec![HirExpr::Case {
                subject: Box::new(var("A")),
                clauses: vec![eir::hir::HirClause {
                    pattern: HirPattern::Tuple(vec![bind("B")]),
                    body: HirExpr::Body { exprs: vec![var("B")] },
                }],
            }],
        }],
        public: true,
    }]);
    let f = lir_of(&m, "case_id");
    assert_eq!(validate(f, Dialect::High), Ok(()));
    match validate(f, Dialect::Normal) {
        Err(ValidationError::DialectMismatch { .. }) => {},
        other => panic!("expected a dialect mismatch, got {:?}", other),
    }
}

/// Recursive `foo([], Acc) -> Acc; foo([H|T], Acc) -> foo(T, [H|Acc]).`:
/// after the pipeline the recursive call is a tail call; no
/// returning-call op remains anywhere in the function.
#[test]
fn recursion_is_promoted_to_tail_call() {
    let m = compile(vec![ParsedFunction {
        name: "foo".to_string(),
        arity: 2,
        clauses: vec![
            ParsedClause {
                params: vec![HirPattern::Atomic(AtomicTerm::Nil), bind("Acc")],
                body: vec![var("Acc")],
            },
            ParsedClause {
                params: vec![
                    HirPattern::Cons(Box::new(bind("H")), Box::new(bind("T"))),
                    bind("Acc"),
                ],
                body: vec![HirExpr::Apply {
                    callee: Box::new(HirExpr::LocalFunction { name: "foo".to_string(), arity: 2 }),
                    args: vec![
                        var("T"),
                        HirExpr::Cons(Box::new(var("H")), Box::new(var("Acc"))),
                    ],
                }],
            },
        ],
        public: true,
    }]);
    let f = lir_of(&m, "foo");
    for i in 0..f.blocks.len() {
        assert_ne!(f.block_kind(Block(i)), Some(OpKind::Call));
    }
    assert_eq!(validate(f, Dialect::High), Ok(()));
}

#[test]
fn unbound_variable_is_a_source_defect() {
    let r = from_parsed(&parsed_module(vec![ParsedFunction {
        name: "broken".to_string(),
        arity: 0,
        clauses: vec![ParsedClause { params: vec![], body: vec![var("Nowhere")] }],
        public: true,
    }]));
    match r {
        Err(eir::module::CompileError::Ssa(eir::ssa::SsaError::UnboundVariable { name })) => {
            assert_eq!(name, "Nowhere");
        },
        _ => panic!("expected an unbound-variable defect"),
    }
}

#[test]
fn clause_arity_mismatch_is_rejected() {
    let r = from_parsed(&parsed_module(vec![ParsedFunction {
        name: "lopsided".to_string(),
        arity: 2,
        clauses: vec![ParsedClause { params: vec![bind("A")], body: vec![var("A")] }],
        public: true,
    }]));
    assert!(matches!(r, Err(eir::module::CompileError::ClauseArity { .. })));
}

#[test]
fn function_without_clauses_is_rejected() {
    let r = from_parsed(&parsed_module(vec![ParsedFunction {
        name: "hollow".to_string(),
        arity: 0,
        clauses: vec![],
        public: true,
    }]));
    assert!(matches!(r, Err(eir::module::CompileError::NoClauses { .. })));
}

#[test]
fn module_keeps_name_attributes_and_visibility() {
    let mut pm = parsed_module(vec![ParsedFunction {
        name: "f".to_string(),
        arity: 0,
        clauses: vec![ParsedClause { params: vec![], body: vec![HirExpr::Atomic(AtomicTerm::Nil)] }],
        public: false,
    }]);
    pm.attributes.push(("vsn".to_string(), AtomicTerm::Int(3)));
    let m = from_parsed(&pm).unwrap();
    assert_eq!(m.name, "scenarios");
    assert_eq!(m.attributes.len(), 1);
    assert_eq!(m.attributes[0].0, "vsn");
    assert!(matches!(m.functions[0].visibility, FunctionVisibility::Private));
    assert_eq!(m.functions[0].ident.module, "scenarios");
    assert_eq!(m.functions[0].ident.arity, 0);
}

#[test]
fn dot_rendering_frames_the_graph() {
    let m = compile(vec![ParsedFunction {
        name: "foo".to_string(),
        arity: 0,
        clauses: vec![ParsedClause { params: vec![], body: vec![HirExpr::Atomic(AtomicTerm::Int(42))] }],
        public: true,
    }]);
    let dot = function_to_dot(&m.functions[0]);
    assert!(dot.starts_with("digraph g {\n"));
    assert!(dot.ends_with("}\n"));
    assert!(dot.contains("blk_0"));
}

#[test]
fn text_rendering_names_the_function() {
    let m = compile(vec![ParsedFunction {
        name: "foo".to_string(),
        arity: 0,
        clauses: vec![ParsedClause { params: vec![], body: vec![HirExpr::Atomic(AtomicTerm::Int(42))] }],
        public: true,
    }]);
    let text = lir_of(&m, "foo").to_text();
    assert!(text.starts_with("function foo/0 {"));
    assert!(text.contains("call_flow"));
}

#[test]
fn labels_are_escaped_for_dot() {
    assert_eq!(
        format_label("{a}\nb"),
        "\\{a\\}<br align=\"left\" />b".to_string()
    );
    assert_eq!(format_label("plain"), "plain".to_string());
}

#[test]
fn numbers_render_in_decimal() {
    assert_eq!(usize_to_string(0), "0".to_string());
    assert_eq!(usize_to_string(42), "42".to_string());
    assert_eq!(usize_to_string(12345), "12345".to_string());
}

#[test]
fn buffer_formatter_indents_lines() {
    let mut fmt = BufferTextFormatter::new();
    fmt.write("a");
    fmt.enter_indent(1);
    fmt.newline();
    fmt.write("b");
    fmt.exit_indent(1);
    fmt.newline();
    fmt.write("c");
    assert_eq!(fmt.buffer().as_str(), "a\n b\nc");
    fmt.clear();
    assert_eq!(fmt.buffer().as_str(), "");
}

#[test]
fn empty_body_is_rejected_by_lowering() {
    let r = from_parsed(&parsed_module(vec![ParsedFunction {
        name: "void".to_string(),
        arity: 0,
        clauses: vec![ParsedClause { params: vec![], body: vec![] }],
        public: true,
    }]));
    assert!(matches!(
        r,
        Err(eir::module::CompileError::Lower(eir::lower::LowerError::EmptyBody))
    ));
}

/// A closure nested inside another closure is lifted too: one lifted
/// function per closure literal, and each compiled definition names the
/// module it belongs to.
#[test]
fn nested_closures_lift_one_function_each() {
    let m = compile(vec![ParsedFunction {
        name: "curry_pair".to_string(),
        arity: 0,
        clauses: vec![ParsedClause {
            params: vec![],
            body: vec![HirExpr::Fun {
                params: vec![avar("A")],
                body: Box::new(HirExpr::Body {
                    exprs: vec![HirExpr::Fun {
                        params: vec![avar("B")],
                        body: Box::new(HirExpr::Body {
                            exprs: vec![HirExpr::Tuple(vec![var("A"), var("B")])],
                        }),
                    }],
                }),
            }],
        }],
        public: true,
    }]);
    // the named function plus two lifted closures
    assert_eq!(m.functions.len(), 3);
    assert_eq!(m.get_env(0).functions.len(), 2);
    let lifted: Vec<_> = m
        .functions
        .iter()
        .filter(|d| matches!(d.visibility, FunctionVisibility::Lambda))
        .collect();
    assert_eq!(lifted.len(), 2);
    for d in m.functions.iter() {
        assert_eq!(d.ident.module, "scenarios");
        let f = d.lir_function.as_ref().expect("lowered");
        assert_eq!(f.ident.module, "scenarios");
        assert_eq!(f.ident.name, d.ident.name);
        assert_eq!(f.ident.arity, d.ident.arity);
    }
    // the outer closure captures nothing; the inner one captures `A`
    assert!(lifted.iter().any(|d| d.ident.arity == 1));
    assert!(lifted.iter().any(|d| d.ident.arity == 2));
}
