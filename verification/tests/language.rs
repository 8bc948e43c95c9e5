use rend::artifact::{decode, encode, Artifact};
use rend::ast::{
    BinOp, Block, ElseBranch, Expr, ExprKind, FnDef, HandlerDecl, IfStmt, Import, ModifierDecl, Module, Param, StateDecl, Stmt,
    StructDecl, StructField, Type,
};
use rend::bc::{BcFn, BcModule, Const, Instr, ReadOp};
use rend::bigint::BigInt;
use rend::compile::{compile, state_default_values};
use rend::defaults::default_for;
use rend::effects::{classify, classify_with_externals, verify_purity_annotations, EffectClass, EffectTable};
use rend::engine::{frontend, read_only, validate_cross_module_calls, Engine, ExecOutcome, TxContext, TypedModule};
use rend::error::{Error, ErrorKind};
use rend::gc::{sweep, InMemoryKv};
use rend::host::{Host, HostError};
use rend::interp::{call, drain_pending_emits, PendingEmit};
use rend::machine::{Halt, Machine, Reply, Request, Setting};
use rend::modifier::expand;
use rend::ops::{call_builtin, convert, eval_binary, eval_unary};
use rend::optimize::optimize;
use rend::run::{run, run_bc};
use rend::server::{do_compile, hash_text, read_artifact, tx_response, StoredCell};
use rend::token::Span;
use rend::value::{is_keyable_value, value_to_u64, Value};
use std::collections::{HashMap, HashSet};

type HostFn = fn(&[Value]) -> Result<Value, HostError>;

fn sp() -> Span {
    Span { start: 0, end: 0 }
}

fn e(kind: ExprKind) -> Expr {
    Expr { kind, span: sp() }
}

fn id(name: &str) -> Expr {
    e(ExprKind::Ident(name.to_string()))
}

fn num(n: i64) -> Expr {
    e(ExprKind::Int(BigInt::from_i64(n)))
}

fn bin(op: BinOp, lhs: Expr, rhs: Expr) -> Expr {
    e(ExprKind::Binary { op, lhs: Box::new(lhs), rhs: Box::new(rhs) })
}

fn plus(a: Expr, b: Expr) -> Expr {
    bin(BinOp::Add, a, b)
}

fn call_of(name: &str, args: Vec<Expr>) -> Expr {
    e(ExprKind::Call { module: None, name: name.to_string(), args })
}

fn call_in(module: &str, name: &str, args: Vec<Expr>) -> Expr {
    e(ExprKind::Call { module: Some(module.to_string()), name: name.to_string(), args })
}

fn index(target: Expr, key: Expr) -> Expr {
    e(ExprKind::Index { target: Box::new(target), key: Box::new(key) })
}

fn field(target: Expr, name: &str) -> Expr {
    e(ExprKind::Field { target: Box::new(target), name: name.to_string() })
}

fn let_(name: &str, value: Expr) -> Stmt {
    Stmt::Let { name: name.to_string(), ty: None, value, span: sp() }
}

fn assign(target: Expr, value: Expr) -> Stmt {
    Stmt::Assign { target, value, span: sp() }
}

fn ret(value: Expr) -> Stmt {
    Stmt::Return { value: Some(value), span: sp() }
}

fn block(stmts: Vec<Stmt>) -> Block {
    Block { stmts, tail: None, span: sp() }
}

fn when(cond: Expr, stmts: Vec<Stmt>) -> Stmt {
    Stmt::If(IfStmt { cond, then_block: block(stmts), else_branch: ElseBranch::Absent, span: sp() })
}

fn func(name: &str, params: Vec<(&str, Type)>, return_type: Type, stmts: Vec<Stmt>) -> FnDef {
    FnDef {
        name: name.to_string(),
        params: params.into_iter().map(|(n, ty)| Param { name: n.to_string(), ty, span: sp() }).collect(),
        return_type,
        body: block(stmts),
        is_nore: false,
        is_entry: false,
        is_view: false,
        is_pure: false,
        modifiers: vec![],
        span: sp(),
    }
}

fn entry(f: FnDef) -> FnDef {
    FnDef { is_entry: true, ..f }
}

fn state(name: &str, ty: Type) -> StateDecl {
    StateDecl { name: name.to_string(), ty, span: sp() }
}

fn module(states: Vec<StateDecl>, functions: Vec<FnDef>) -> Module {
    Module {
        name: None,
        imports: vec![],
        states,
        functions,
        structs: vec![],
        handlers: vec![],
        modifiers: vec![],
        enums: vec![],
        consts: vec![],
        caps: vec![],
        interfaces: vec![],
        indexes: vec![],
    }
}

fn built(m: &Module) -> BcModule {
    frontend(m, &Ok(())).unwrap();
    let defaults: Vec<Vec<u8>> = m.states.iter().map(|_| vec![0u8]).collect();
    compile(m, &vec![], &defaults).unwrap()
}

fn compile_optimized(m: &Module) -> BcModule {
    let mut bc = built(m);
    optimize(&mut bc, &classify(m));
    bc
}

fn count_instrs(bc: &BcModule, fn_name: &str, p: impl Fn(&Instr) -> bool) -> usize {
    let f = bc.functions.iter().find(|f| f.name == fn_name).unwrap();
    f.code.iter().filter(|i| p(i)).count()
}

fn class_of(t: &EffectTable, name: &str) -> EffectClass {
    t.get(name).unwrap()
}

/// Runs the code of a function on states that all hold zero.
fn run_zeros(bc: &BcModule, f: &BcFn, args: Vec<Value>) -> Value {
    let mut regs: Vec<Value> = (0..f.n_regs).map(|_| Value::Unit).collect();
    for (i, a) in args.into_iter().enumerate() {
        regs[i] = a;
    }
    let mut pc: i64 = 0;
    loop {
        let at = pc as usize;
        pc += 1;
        match f.code[at] {
            Instr::LoadConst { dst, idx } => {
                regs[dst as usize] = match &f.consts[idx as usize] {
                    Const::Int(n) => Value::Int(n.copy()),
                    Const::U64(n) => Value::U64(*n),
                    Const::Bool(b) => Value::Bool(*b),
                    other => panic!("{other:?}"),
                };
            }
            Instr::Move { dst, src } => regs[dst as usize] = regs[src as usize].copy(),
            Instr::Bin { op, dst, lhs, rhs } => {
                regs[dst as usize] = eval_binary(op, &regs[lhs as usize], &regs[rhs as usize], sp()).unwrap();
            }
            Instr::Un { op, dst, src } => regs[dst as usize] = eval_unary(op, &regs[src as usize], sp()).unwrap(),
            Instr::Jump { offset } => pc += offset as i64,
            Instr::JumpIfFalse { cond, offset } => {
                if matches!(regs[cond as usize], Value::Bool(false)) {
                    pc += offset as i64;
                }
            }
            Instr::KvGet { dst, .. } => regs[dst as usize] = Value::of_int(0),
            Instr::ReadBatch { group_idx } => {
                for r in &f.read_groups[group_idx as usize] {
                    match r {
                        ReadOp::State { dst, .. } => regs[*dst as usize] = Value::of_int(0),
                        ReadOp::Path { dst, .. } => regs[*dst as usize] = Value::of_int(0),
                    }
                }
            }
            Instr::Call { dst, fn_idx, args_start, n_args } => {
                let given: Vec<Value> =
                    (0..n_args as usize).map(|k| regs[args_start as usize + k].copy()).collect();
                regs[dst as usize] = run_zeros(bc, &bc.functions[fn_idx as usize], given);
            }
            Instr::Return { src } => return regs[src as usize].copy(),
            other => panic!("{other:?}"),
        }
    }
}

fn main_of(bc: &BcModule) -> &BcFn {
    bc.functions.iter().find(|f| f.name == "main").unwrap()
}

// ---- effects ----

#[test]
fn pure_function() {
    let m = module(
        vec![],
        vec![func("add", vec![("a", Type::Int), ("b", Type::Int)], Type::Int, vec![ret(plus(id("a"), id("b")))])],
    );
    assert_eq!(class_of(&classify(&m), "add"), EffectClass::Pure);
}

#[test]
fn read_only_via_state_read() {
    let m = module(vec![state("x", Type::Int)], vec![func("read_x", vec![], Type::Int, vec![ret(id("x"))])]);
    assert!(matches!(class_of(&classify(&m), "read_x"), EffectClass::ReadOnly | EffectClass::Pure));
}

#[test]
fn assigning_to_state_is_writeonly_or_higher() {
    let m = module(
        vec![state("x", Type::Int)],
        vec![func("set_x", vec![], Type::Unit, vec![assign(id("x"), num(1))])],
    );
    let c = class_of(&classify(&m), "set_x");
    assert!(c.writes(), "{c:?} should be a write");
}

#[test]
fn host_import_is_impure() {
    let mut m = module(
        vec![],
        vec![func("shout", vec![("n", Type::Int)], Type::Unit, vec![Stmt::Expr(call_of("log", vec![id("n")]))])],
    );
    m.imports.push(Import {
        name: "log".to_string(),
        params: vec![Type::Int],
        return_type: Type::Unit,
        span: sp(),
    });
    assert_eq!(class_of(&classify(&m), "shout"), EffectClass::Impure);
}

#[test]
fn builtins_are_pure() {
    let m = module(
        vec![],
        vec![func(
            "first",
            vec![("xs", Type::Array(Box::new(Type::Int)))],
            Type::Int,
            vec![ret(call_of("len", vec![id("xs")]))],
        )],
    );
    assert_eq!(class_of(&classify(&m), "first"), EffectClass::Pure);
}

#[test]
fn caller_inherits_callee_effect() {
    let m = module(
        vec![state("x", Type::Int)],
        vec![
            func("writer", vec![], Type::Unit, vec![assign(id("x"), num(1))]),
            func("caller", vec![], Type::Unit, vec![Stmt::Expr(call_of("writer", vec![]))]),
        ],
    );
    assert!(class_of(&classify(&m), "caller").writes());
}

#[test]
fn mutual_recursion_terminates() {
    let bounce = |name: &str, other: &str| {
        func(
            name,
            vec![("n", Type::Int)],
            Type::Int,
            vec![
                when(bin(BinOp::Eq, id("n"), num(0)), vec![ret(num(0))]),
                ret(call_of(other, vec![bin(BinOp::Sub, id("n"), num(1))])),
            ],
        )
    };
    let t = classify(&module(vec![], vec![bounce("ping", "pong"), bounce("pong", "ping")]));
    assert_eq!(class_of(&t, "ping"), EffectClass::Pure);
    assert_eq!(class_of(&t, "pong"), EffectClass::Pure);
}

fn fib() -> FnDef {
    func(
        "fib",
        vec![("n", Type::Int)],
        Type::Int,
        vec![
            when(bin(BinOp::Lt, id("n"), num(2)), vec![ret(id("n"))]),
            ret(plus(
                call_of("fib", vec![bin(BinOp::Sub, id("n"), num(1))]),
                call_of("fib", vec![bin(BinOp::Sub, id("n"), num(2))]),
            )),
        ],
    )
}

#[test]
fn pure_recursion_stays_pure() {
    assert_eq!(class_of(&classify(&module(vec![], vec![fib()])), "fib"), EffectClass::Pure);
}

#[test]
fn write_propagates_through_recursion() {
    let m = module(
        vec![state("count", Type::Int)],
        vec![func(
            "rec",
            vec![("n", Type::Int)],
            Type::Int,
            vec![
                when(bin(BinOp::Eq, id("n"), num(0)), vec![ret(num(0))]),
                assign(id("count"), plus(id("count"), num(1))),
                ret(call_of("rec", vec![bin(BinOp::Sub, id("n"), num(1))])),
            ],
        )],
    );
    assert!(class_of(&classify(&m), "rec").writes());
}

#[test]
fn cross_module_call_uses_externals() {
    let mut m = module(
        vec![],
        vec![func("caller", vec![], Type::Int, vec![ret(call_in("other", "pure_thing", vec![]))])],
    );
    m.name = Some("main".to_string());
    let ext = vec![("other::pure_thing".to_string(), EffectClass::Pure)];
    assert_eq!(class_of(&classify_with_externals(&m, &ext), "caller"), EffectClass::Pure);
}

#[test]
fn missing_external_is_impure() {
    let mut m =
        module(vec![], vec![func("caller", vec![], Type::Int, vec![ret(call_in("other", "unknown", vec![]))])]);
    m.name = Some("main".to_string());
    assert_eq!(class_of(&classify_with_externals(&m, &vec![]), "caller"), EffectClass::Impure);
}

#[test]
fn classes_join_upwards() {
    assert_eq!(EffectClass::ReadOnly.join(EffectClass::WriteOnly), EffectClass::ReadWrite);
    assert_eq!(EffectClass::Pure.join(EffectClass::ReadOnly), EffectClass::ReadOnly);
    assert!(EffectClass::ReadWrite.join(EffectClass::Impure).impure());
    assert!(EffectClass::ReadWrite.reads());
    assert!(!EffectClass::WriteOnly.reads());
}

#[test]
fn broken_promises_are_errors() {
    let mut f = func("w", vec![], Type::Unit, vec![assign(id("x"), num(1))]);
    f.is_view = true;
    let m = module(vec![state("x", Type::Int)], vec![f]);
    assert!(verify_purity_annotations(&m, &classify(&m)).is_err());
    assert!(frontend(&m, &Ok(())).is_err());
}

// ---- modifiers ----

fn modifier(name: &str, stmts: Vec<Stmt>) -> ModifierDecl {
    ModifierDecl { name: name.to_string(), params: vec![], body: block(stmts), span: sp() }
}

#[test]
fn no_modifiers_is_a_no_op() {
    let mut m = module(vec![], vec![func("main", vec![], Type::Int, vec![ret(num(1))])]);
    expand(&mut m).unwrap();
    let f = &m.functions[0];
    assert!(f.modifiers.is_empty());
    assert_eq!(f.body.stmts.len(), 1);
}

#[test]
fn placeholder_outside_modifier_is_rejected() {
    let mut m =
        module(vec![], vec![func("main", vec![], Type::Int, vec![Stmt::Placeholder(sp()), ret(num(0))])]);
    let err = expand(&mut m).unwrap_err();
    assert!(err.to_string().contains("modifier"));
}

#[test]
fn single_modifier_wraps_body() {
    let mut f = func("main", vec![], Type::Int, vec![ret(num(7))]);
    f.modifiers.push(("Guard".to_string(), vec![]));
    let mut m = module(vec![], vec![f]);
    m.modifiers.push(modifier("Guard", vec![let_("_g", num(1)), Stmt::Placeholder(sp()), let_("_h", num(2))]));
    expand(&mut m).unwrap();
    let f = &m.functions[0];
    assert!(f.modifiers.is_empty());
    assert_eq!(f.body.stmts.len(), 3);
}

#[test]
fn modifier_with_no_placeholder_is_rejected() {
    let mut f = func("main", vec![], Type::Int, vec![ret(num(0))]);
    f.modifiers.push(("Bad".to_string(), vec![]));
    let mut m = module(vec![], vec![f]);
    m.modifiers.push(modifier("Bad", vec![let_("_x", num(1))]));
    let err = expand(&mut m).unwrap_err();
    assert!(err.to_string().contains("placeholder"));
}

// ---- optimizer ----

#[test]
fn two_independent_state_reads_become_one_batch() {
    let m = module(
        vec![state("a", Type::Int), state("b", Type::Int)],
        vec![func(
            "main",
            vec![],
            Type::Int,
            vec![let_("x", id("a")), let_("y", id("b")), ret(plus(id("x"), id("y")))],
        )],
    );
    let bc = compile_optimized(&m);
    let kv_gets = count_instrs(&bc, "main", |i| matches!(i, Instr::KvGet { .. }));
    let batches = count_instrs(&bc, "main", |i| matches!(i, Instr::ReadBatch { .. }));
    assert_eq!(kv_gets, 0, "individual reads should be folded into a batch");
    assert_eq!(batches, 1);
    let f = main_of(&bc);
    assert_eq!(f.read_groups.len(), 1);
    assert_eq!(f.read_groups[0].len(), 2);
}

#[test]
fn write_between_reads_breaks_the_cluster() {
    let m = module(
        vec![state("a", Type::Int), state("b", Type::Int)],
        vec![func(
            "main",
            vec![],
            Type::Int,
            vec![
                let_("x", id("a")),
                assign(id("a"), num(99)),
                let_("y", id("b")),
                ret(plus(id("x"), id("y"))),
            ],
        )],
    );
    let bc = compile_optimized(&m);
    assert_eq!(count_instrs(&bc, "main", |i| matches!(i, Instr::KvGet { .. })), 2);
    assert_eq!(count_instrs(&bc, "main", |i| matches!(i, Instr::ReadBatch { .. })), 0);
}

#[test]
fn pure_call_between_reads_doesnt_break_cluster() {
    let m = module(
        vec![state("a", Type::Int), state("b", Type::Int)],
        vec![
            entry(func(
                "double",
                vec![("n", Type::Int)],
                Type::Int,
                vec![ret(bin(BinOp::Mul, id("n"), num(2)))],
            )),
            func(
                "main",
                vec![],
                Type::Int,
                vec![
                    let_("x", id("a")),
                    let_("_z", call_of("double", vec![num(7)])),
                    let_("y", id("b")),
                    ret(plus(id("x"), id("y"))),
                ],
            ),
        ],
    );
    let bc = compile_optimized(&m);
    assert_eq!(count_instrs(&bc, "main", |i| matches!(i, Instr::KvGet { .. })), 0);
    assert_eq!(count_instrs(&bc, "main", |i| matches!(i, Instr::ReadBatch { .. })), 1);
    assert!(run_zeros(&bc, main_of(&bc), vec![]).same(&Value::of_int(0)));
}

#[test]
fn dependent_read_breaks_the_cluster() {
    let m = module(
        vec![state("a", Type::Int)],
        vec![func(
            "main",
            vec![],
            Type::Int,
            vec![let_("x", id("a")), let_("y", plus(id("x"), num(1))), ret(plus(id("x"), id("y")))],
        )],
    );
    let bc = compile_optimized(&m);
    assert_eq!(count_instrs(&bc, "main", |i| matches!(i, Instr::KvGet { .. })), 1);
    assert_eq!(count_instrs(&bc, "main", |i| matches!(i, Instr::ReadBatch { .. })), 0);
}

#[test]
fn jumps_after_optimization_still_target_correctly() {
    let sum = || plus(id("x"), id("y"));
    let m = module(
        vec![state("a", Type::Int), state("b", Type::Int)],
        vec![func(
            "main",
            vec![],
            Type::Int,
            vec![
                let_("x", id("a")),
                let_("y", id("b")),
                when(bin(BinOp::GtEq, sum(), num(0)), vec![ret(plus(sum(), num(30)))]),
                ret(e(ExprKind::Unary { op: rend::ast::UnOp::Neg, operand: Box::new(num(1)) })),
            ],
        )],
    );
    let bc = compile_optimized(&m);
    let v = run_zeros(&bc, main_of(&bc), vec![]);
    assert!(v.same(&Value::of_int(30)));
}

#[test]
fn five_reads_become_one_batch_end_to_end() {
    let names = ["a", "b", "c", "d", "e"];
    let mut stmts: Vec<Stmt> =
        names.iter().enumerate().map(|(i, n)| let_(&format!("v{}", i + 1), id(n))).collect();
    let sum = (2..6).fold(id("v1"), |acc, i| plus(acc, id(&format!("v{i}"))));
    stmts.push(ret(sum));
    let m = module(
        names.iter().map(|n| state(n, Type::Int)).collect(),
        vec![func("main", vec![], Type::Int, stmts)],
    );
    let bc = compile_optimized(&m);
    let f = main_of(&bc);
    assert_eq!(f.read_groups.len(), 1);
    assert_eq!(f.read_groups[0].len(), 5);
    let v = run_zeros(&bc, f, vec![]);
    assert!(v.same(&Value::of_int(0)));
}

#[test]
fn reads_in_a_loop_condition_stay_in_the_loop() {
    let m = module(
        vec![state("a", Type::Int), state("b", Type::Int)],
        vec![func(
            "main",
            vec![],
            Type::Int,
            vec![
                let_("x", id("a")),
                Stmt::While {
                    cond: bin(BinOp::Lt, plus(id("x"), id("b")), num(10)),
                    body: block(vec![assign(id("x"), plus(id("x"), num(1)))]),
                    span: sp(),
                },
                ret(id("x")),
            ],
        )],
    );
    let bc = compile_optimized(&m);
    assert_eq!(count_instrs(&bc, "main", |i| matches!(i, Instr::ReadBatch { .. })), 0);
    assert!(run_zeros(&bc, main_of(&bc), vec![]).same(&Value::of_int(10)));
}

#[test]
fn walks_keep_their_targets() {
    let code = vec![
        Instr::PMapWalkInit { dst: 0, state_idx: 0 },
        Instr::KvGet { dst: 2, key_idx: 0 },
        Instr::LoadConst { dst: 4, idx: 0 },
        Instr::KvGet { dst: 3, key_idx: 1 },
        Instr::PMapWalkNext { cursor_reg: 0, value_reg: 1, end_offset: 1 },
        Instr::Jump { offset: -2 },
        Instr::Return { src: 2 },
    ];
    let mut m = built(&module(vec![], vec![func("main", vec![], Type::Int, vec![ret(num(0))])]));
    m.functions[0].code = code;
    optimize(&mut m, &classify(&module(vec![], vec![])));
    assert_eq!(
        m.functions[0].code,
        vec![
            Instr::PMapWalkInit { dst: 0, state_idx: 0 },
            Instr::LoadConst { dst: 4, idx: 0 },
            Instr::ReadBatch { group_idx: 0 },
            Instr::PMapWalkNext { cursor_reg: 0, value_reg: 1, end_offset: 1 },
            Instr::Jump { offset: -2 },
            Instr::Return { src: 2 },
        ]
    );
}

#[test]
fn optimizing_again_changes_nothing() {
    let m = module(
        vec![state("a", Type::Int), state("b", Type::Int)],
        vec![func(
            "main",
            vec![],
            Type::Int,
            vec![let_("x", id("a")), let_("y", id("b")), ret(plus(id("x"), id("y")))],
        )],
    );
    let mut bc = compile_optimized(&m);
    let once = main_of(&bc).code.clone();
    optimize(&mut bc, &classify(&m));
    assert_eq!(main_of(&bc).code, once);
}

// ---- artifacts ----

fn const_eq(a: &Const, b: &Const) -> bool {
    match (a, b) {
        (Const::Int(x), Const::Int(y)) => x.same(y),
        (Const::UInt(x), Const::UInt(y)) => x.same(y),
        _ => format!("{a:?}") == format!("{b:?}"),
    }
}

fn assert_module_eq(a: &BcModule, b: &BcModule) {
    assert_eq!(a.name, b.name);
    assert_eq!(a.imports, b.imports);
    assert_eq!(a.state_roots, b.state_roots);
    assert_eq!(a.state_types, b.state_types);
    assert_eq!(a.state_names, b.state_names);
    assert_eq!(a.state_defaults, b.state_defaults);
    assert_eq!(a.functions.len(), b.functions.len());
    for (af, bf) in a.functions.iter().zip(b.functions.iter()) {
        assert_eq!(af.name, bf.name);
        assert_eq!(af.n_params, bf.n_params);
        assert_eq!(af.n_regs, bf.n_regs);
        assert_eq!(af.is_entry, bf.is_entry);
        assert_eq!(af.is_nore, bf.is_nore);
        assert_eq!(af.consts.len(), bf.consts.len());
        for (ac, bc) in af.consts.iter().zip(bf.consts.iter()) {
            assert!(const_eq(ac, bc), "{ac:?} {bc:?}");
        }
        assert_eq!(af.code.len(), bf.code.len());
        for (ai, bi) in af.code.iter().zip(bf.code.iter()) {
            assert_eq!(ai, bi);
        }
    }
    assert_eq!(a.struct_shapes.len(), b.struct_shapes.len());
    assert_eq!(a.enum_shapes.len(), b.enum_shapes.len());
}

fn roundtrip(bc: BcModule) -> (BcModule, Vec<BcModule>) {
    let modules = vec![bc];
    let bytes = encode(&modules);
    let back = decode(&bytes).expect("decode");
    (modules.into_iter().next().unwrap(), back)
}

fn minimal() -> Module {
    module(
        vec![],
        vec![func("main", vec![], Type::Int, vec![ret(plus(num(1), bin(BinOp::Mul, num(2), num(3))))])],
    )
}

#[test]
fn round_trip_minimal_module() {
    let (bc, back) = roundtrip(built(&minimal()));
    assert_eq!(back.len(), 1);
    assert_module_eq(&bc, &back[0]);
}

fn point_type() -> Type {
    Type::Struct {
        name: "Point".to_string(),
        fields: vec![("x".to_string(), Type::Int), ("y".to_string(), Type::Int)],
        field_groups: vec![],
    }
}

#[test]
fn round_trip_with_states_and_struct() {
    let origin_x = || field(id("origin"), "x");
    let mut m = module(
        vec![state("origin", point_type()), state("n", Type::Int)],
        vec![
            entry(func(
                "move_x",
                vec![("d", Type::Int)],
                Type::Int,
                vec![
                    assign(origin_x(), plus(origin_x(), id("d"))),
                    assign(id("n"), plus(id("n"), num(1))),
                    ret(origin_x()),
                ],
            )),
            func("main", vec![], Type::Int, vec![ret(call_of("move_x", vec![num(7)]))]),
        ],
    );
    let f = |n: &str| StructField { name: n.to_string(), ty: Type::Int, group: None, span: sp() };
    m.structs.push(StructDecl { name: "Point".to_string(), fields: vec![f("x"), f("y")], is_pub: false, span: sp() });
    let (bc, back) = roundtrip(built(&m));
    assert_module_eq(&bc, &back[0]);
}

#[test]
fn round_trip_pmap_pvec() {
    let m = module(
        vec![
            state("m", Type::PMap { key: Box::new(Type::Int), value: Box::new(Type::U64) }),
            state("v", Type::PVec { elem: Box::new(Type::Int) }),
        ],
        vec![func(
            "main",
            vec![],
            Type::U64,
            vec![
                assign(index(id("m"), num(1)), e(ExprKind::U64(100))),
                Stmt::Expr(call_of("pvec_push", vec![id("v"), num(7)])),
                ret(index(id("m"), num(1))),
            ],
        )],
    );
    let (bc, back) = roundtrip(built(&m));
    assert_module_eq(&bc, &back[0]);
}

fn bumper() -> Module {
    module(
        vec![state("n", Type::Int)],
        vec![
            entry(func(
                "bump",
                vec![],
                Type::Int,
                vec![assign(id("n"), plus(id("n"), num(1))), ret(id("n"))],
            )),
            func("main", vec![], Type::Int, vec![ret(call_of("bump", vec![]))]),
        ],
    )
}

#[test]
fn deterministic_encoding() {
    let b1 = encode(&[built(&bumper())]);
    let b2 = encode(&[built(&bumper())]);
    assert_eq!(b1, b2, "same source must produce byte-identical artifact");
}

#[test]
fn rejects_bad_magic() {
    let mut bytes = vec![0u8; 16];
    bytes[..8].copy_from_slice(b"NOTAREND");
    let err = decode(&bytes).unwrap_err();
    assert!(err.to_string().contains("magic"));
}

#[test]
fn rejects_truncated() {
    let m = module(vec![], vec![func("main", vec![], Type::Int, vec![ret(num(1))])]);
    let bytes = encode(&[built(&m)]);
    let truncated = &bytes[..bytes.len() / 2];
    let err = decode(truncated).unwrap_err();
    assert!(err.to_string().contains("truncated") || err.to_string().contains("invalid"));
}

#[test]
fn artifacts_are_found_by_their_hash() {
    let a = Artifact::from_modules(vec![built(&bumper())]);
    let back = Artifact::from_bytes(a.bytes.clone()).unwrap();
    assert_eq!(a.content_hash, back.content_hash);
    let read = read_artifact(&hash_text(a.content_hash), StoredCell::Bytes(a.bytes.clone())).unwrap().unwrap();
    assert_eq!(read.bytes, a.bytes);
    assert_module_eq(&read.modules[0], &a.modules[0]);
    assert_eq!(a.main_module().unwrap(), Some("main"));
}

// ---- running ----

fn typed(m: Module, name: &str) -> TypedModule {
    let defaults = m.states.iter().map(|_| vec![0u8]).collect();
    TypedModule { name: name.to_string(), module: m, checked: Ok(()), plan: vec![], defaults }
}

#[test]
fn main_is_interpreted() {
    let v = run(&typed(minimal(), "main"), &vec![], &Value::Unit, 1000).unwrap();
    assert!(v.same(&Value::of_int(7)));
    let m = module(
        vec![],
        vec![fib(), func("main", vec![], Type::Int, vec![ret(call_of("fib", vec![num(10)]))])],
    );
    let v = run(&typed(m, "main"), &vec![], &Value::Unit, 100_000).unwrap();
    assert!(v.same(&Value::of_int(55)));
}

#[test]
fn fuel_runs_out() {
    let m = module(
        vec![],
        vec![func(
            "main",
            vec![],
            Type::Int,
            vec![
                Stmt::While { cond: e(ExprKind::Bool(true)), body: block(vec![let_("x", num(1))]), span: sp() },
                ret(num(0)),
            ],
        )],
    );
    assert!(matches!(run(&typed(m, "main"), &vec![], &Value::Unit, 100), Err(Halt::OutOfFuel)));
}

#[test]
fn states_are_asked_for() {
    let t = typed(bumper(), "main");
    let mut replies: Vec<Reply> = vec![];
    let mut seen: Vec<String> = vec![];
    let mut stored: i64 = 41;
    let result = loop {
        match run(&t, &replies, &Value::Unit, 1000) {
            Ok(v) => break v,
            Err(Halt::Need(Request::Read { .. })) => {
                seen.push("read".to_string());
                replies.push(Reply::Value(Value::of_int(stored)));
            }
            Err(Halt::Need(Request::Write { value, .. })) => {
                seen.push("write".to_string());
                let Value::Int(n) = value else { panic!() };
                stored = n.to_i64().unwrap();
                replies.push(Reply::Done);
            }
            Err(h) => panic!("{h:?}"),
        }
    };
    assert!(result.same(&Value::of_int(42)));
    assert_eq!(seen, vec!["read", "write", "read"]);
}

#[test]
fn failures_carry_messages() {
    let m = module(
        vec![],
        vec![func("main", vec![], Type::Int, vec![ret(bin(BinOp::Div, num(1), num(0)))])],
    );
    match run(&typed(m, "main"), &vec![], &Value::Unit, 100) {
        Err(Halt::Fail(e)) => assert_eq!(e.kind, ErrorKind::Runtime),
        other => panic!("{other:?}"),
    }
    let mut t = typed(minimal(), "main");
    t.checked = Err(Error::new(ErrorKind::Type, "bad".to_string(), sp()));
    assert!(matches!(run(&t, &vec![], &Value::Unit, 100), Err(Halt::Fail(e)) if e.msg == "bad"));
    assert_eq!(run_bc(&t).unwrap_err().msg, "bad");
}

#[test]
fn functions_are_called_with_arguments() {
    let m = module(vec![], vec![fib()]);
    let none: Vec<Reply> = vec![];
    let cx = Setting { module: &m, replies: &none, sender: &Value::Unit, block_timestamp: 5, block_number: 6 };
    let mut machine = Machine::new();
    let v = call(&cx, 10_000, "fib", vec![Value::of_int(7)], &mut machine).unwrap();
    assert!(v.same(&Value::of_int(13)));
}

#[test]
fn compiled_code_agrees_with_the_interpreter() {
    let m = module(
        vec![],
        vec![fib(), func("main", vec![], Type::Int, vec![ret(call_of("fib", vec![num(12)]))])],
    );
    let bc = compile_optimized(&m);
    let compiled = run_zeros(&bc, main_of(&bc), vec![]);
    let interpreted = run(&typed(m, "main"), &vec![], &Value::Unit, 100_000).unwrap();
    assert!(compiled.same(&interpreted));
    assert!(compiled.same(&Value::of_int(144)));
}

#[test]
fn more_fuel_and_replies_change_nothing() {
    let t = typed(bumper(), "main");
    let replies = |n: usize| {
        let mut v = vec![Reply::Value(Value::of_int(1)), Reply::Done, Reply::Value(Value::of_int(2))];
        for _ in 0..n {
            v.push(Reply::Absent);
        }
        v
    };
    let short = run(&t, &replies(0), &Value::Unit, 100).unwrap();
    let long = run(&t, &replies(5), &Value::Unit, 100_000).unwrap();
    assert!(short.same(&Value::of_int(2)));
    assert!(short.same(&long));
}

#[test]
fn waiting_events_reach_their_handlers() {
    let mut m = module(vec![], vec![]);
    m.name = Some("shop".to_string());
    let on_sold = || {
        func("on_sold", vec![("e", point_type())], Type::Unit, vec![Stmt::Expr(call_of("log", vec![id("e")]))])
    };
    m.functions.push(on_sold());
    m.handlers.push(HandlerDecl {
        event_module: None,
        event_type: "Sold".to_string(),
        fn_def: on_sold(),
        span: sp(),
    });
    m.imports.push(Import {
        name: "log".to_string(),
        params: vec![point_type()],
        return_type: Type::Unit,
        span: sp(),
    });
    let event = |name: &str| PendingEmit {
        module: "shop".to_string(),
        struct_name: name.to_string(),
        value: Value::Struct { name: name.to_string(), fields: vec![] },
    };
    let none: Vec<Reply> = vec![];
    let cx = Setting { module: &m, replies: &none, sender: &Value::Unit, block_timestamp: 0, block_number: 0 };
    let mut machine = Machine::new();
    assert!(drain_pending_emits(&cx, 100, &vec![event("Other")], &mut machine).is_ok());
    let mut machine = Machine::new();
    match drain_pending_emits(&cx, 100, &vec![event("Sold")], &mut machine) {
        Err(Halt::Need(Request::Host { name, args })) => {
            assert_eq!(name, "log");
            assert_eq!(args.len(), 1);
        }
        other => panic!("{other:?}"),
    }
}

// ---- the engine ----

fn caller_of(target: &str) -> Module {
    let mut m = module(vec![], vec![func("main", vec![], Type::Int, vec![ret(call_in("lib", target, vec![]))])]);
    m.name = Some("app".to_string());
    m
}

fn library() -> Module {
    let mut m = module(vec![], vec![entry(func("one", vec![], Type::Int, vec![ret(num(1))]))]);
    m.name = Some("lib".to_string());
    m
}

#[test]
fn modules_are_linked() {
    let engine: Engine<HostFn> = Engine::new();
    let sources = vec![typed(library(), "lib"), typed(caller_of("one"), "app")];
    let p = engine.execute_modules(&sources, "app").unwrap();
    assert_eq!(p.modules.len(), 2);
    assert_eq!(p.modules[p.launch.main].name, "app");
    let sources = vec![typed(library(), "lib"), typed(caller_of("two"), "app")];
    assert!(engine.execute_modules(&sources, "app").is_err());
    let sources = vec![typed(library(), "lib")];
    assert!(engine.execute_modules(&sources, "app").is_err());
}

#[test]
fn module_sets_become_one_artifact() {
    let engine: Engine<HostFn> = Engine::new();
    let a = engine.compile_modules(&vec![typed(library(), "lib"), typed(caller_of("one"), "app")]).unwrap();
    assert_eq!(a.modules.len(), 2);
    assert_eq!(a.main_module().unwrap(), Some("app"));
    let mut nameless = library();
    nameless.name = None;
    assert!(engine.compile_modules(&vec![typed(nameless, "lib")]).is_err());
}

#[test]
fn transactions_are_linked_against_artifacts() {
    let engine: Engine<HostFn> = Engine::new();
    let lib = engine.compile(typed(library(), "lib")).unwrap();
    let deps = vec![lib];
    let tx = engine.compile_tx(typed(caller_of("one"), "app"), &deps).unwrap();
    let launch = engine.execute_tx(&tx, &deps).unwrap();
    assert_eq!(launch.main, 0);
    assert_eq!(launch.ctx.block_number, 0);
    let ctx = TxContext { sender: [9; 20], block_timestamp: 1, block_number: 2 };
    assert_eq!(engine.execute_tx_with_context(&tx, &deps, ctx).unwrap().ctx.block_number, 2);
    assert!(engine.query(&tx, &deps).is_err());
}

#[test]
fn linking_checks_calls_between_modules() {
    let lib = built(&library());
    let app = built(&caller_of("one"));
    assert!(validate_cross_module_calls(&vec![&app]).is_err());
    let lib = BcModule { name: "lib".to_string(), ..lib };
    assert!(validate_cross_module_calls(&vec![&app, &lib]).is_ok());
}

#[test]
fn deploying_runs_main() {
    let engine: Engine<HostFn> = Engine::new();
    let mut m = bumper();
    m.name = Some("ctr".to_string());
    let a = engine.compile(typed(m, "ctr")).unwrap();
    assert_eq!(engine.deploy(&a).unwrap().unwrap().main, 0);
    let lib = engine.compile(typed(library(), "lib")).unwrap();
    assert!(engine.deploy(&lib).unwrap().is_none());
    assert!(engine.execute_artifact(&a, "ctr").is_ok());
    assert!(engine.execute_artifact(&a, "other").is_err());
}

#[test]
fn missing_host_functions_are_reported() {
    let mut engine: Engine<HostFn> = Engine::new();
    assert!(engine.compile(typed(minimal(), "main")).is_ok());
    let with_log = |e: &Engine<HostFn>| {
        let mut m = minimal();
        m.imports.push(Import { name: "log".to_string(), params: vec![], return_type: Type::Unit, span: sp() });
        e.compile(typed(m, "main"))
    };
    assert!(with_log(&engine).is_err());
    engine.bind("log".to_string(), |_| Ok(Value::Unit));
    assert!(with_log(&engine).is_ok());
    assert!(engine.host().has("log"));
}

#[test]
fn compiling_for_the_server() {
    let engine: Engine<HostFn> = Engine::new();
    let mut m = bumper();
    m.name = Some("ctr".to_string());
    let c = do_compile(&engine, typed(m, "ctr")).unwrap();
    assert_eq!(c.response.modules, vec!["ctr"]);
    assert_eq!(c.response.bytes, hex::encode(&c.bytes));
    let hash = rend::hashing::child(0, &c.bytes);
    assert_eq!(c.response.hash, format!("{hash:032x}"));
    assert_eq!(c.cell, rend::server::artifact_cell(hash));
    let mut t = typed(minimal(), "main");
    t.checked = Err(Error::new(ErrorKind::Type, "bad".to_string(), sp()));
    assert_eq!(do_compile(&engine, t).unwrap_err().status(), 422);
}

fn outcome(writes: HashMap<u128, Value>) -> ExecOutcome {
    ExecOutcome {
        result: Value::U64(5),
        reads: HashMap::new(),
        writes,
        events: vec![rend::engine::EmittedEvent {
            module: "m".to_string(),
            name: "E".to_string(),
            args: vec![Value::Bool(true)],
        }],
        pmap_types: HashMap::new(),
        pvec_types: HashMap::new(),
        node_cells_written: HashSet::new(),
    }
}

#[test]
fn queries_must_not_write() {
    assert!(read_only(outcome(HashMap::new())).is_ok());
    let mut w = HashMap::new();
    w.insert(1u128, Value::Unit);
    let e = read_only(outcome(w)).unwrap_err();
    assert_eq!(e.msg, "query: tx wrote 1 cell(s) — `view`/`pure` annotation was violated by a callee");
}

#[test]
fn replies_to_transactions() {
    let mut w = HashMap::new();
    w.insert(1u128, Value::Unit);
    w.insert(2u128, Value::Unit);
    let r = tx_response(&outcome(w));
    assert_eq!(format!("{:?}", r.result), "Unsigned(5)");
    assert_eq!(r.writes_applied, 2);
    assert_eq!(r.events.len(), 1);
    assert_eq!(r.events[0].name, "E");
    assert_eq!(format!("{:?}", r.events[0].args), "[Bool(true)]");
}

// ---- host, values, storage ----

#[test]
fn host_functions_are_called() {
    let mut h: Host<HostFn> = Host::new();
    h.bind("inc".to_string(), |args| match args {
        [Value::U64(n)] => Ok(Value::U64(n + 1)),
        _ => Err(HostError::invalid_args("one u64".to_string())),
    });
    assert!(h.has("inc"));
    assert!(!h.has("dec"));
    assert!(h.call("inc", &[Value::U64(1)]).unwrap().same(&Value::U64(2)));
    assert_eq!(h.call("inc", &[]).unwrap_err().to_string(), "host error 1: one u64");
    assert!(h.call("dec", &[]).is_err());
    assert_eq!(HostError::aborted("x".to_string()).code, 2);
    assert_eq!(HostError::new(7, "y".to_string()).to_string(), "host error 7: y");
}

#[test]
fn operators_on_values() {
    let i = |n: i64| Value::of_int(n);
    let go = |op, a: &Value, b: &Value| eval_binary(op, a, b, sp());
    assert!(go(BinOp::Mod, &i(-7), &i(2)).unwrap().same(&i(-1)));
    assert!(go(BinOp::Add, &i(i64::MAX), &i(1)).unwrap().to_string() == "9223372036854775808");
    assert!(go(BinOp::Add, &Value::U64(u64::MAX), &Value::U64(1)).is_err());
    assert!(go(BinOp::Sub, &Value::U32(0), &Value::U32(1)).is_err());
    assert!(go(BinOp::Div, &i(1), &i(0)).is_err());
    assert!(go(BinOp::Lt, &Value::U64(1), &Value::U64(2)).unwrap().same(&Value::Bool(true)));
    assert!(go(BinOp::BitXor, &Value::U32(6), &Value::U32(3)).unwrap().same(&Value::U32(5)));
    assert!(go(BinOp::Add, &i(1), &Value::Bool(true)).is_err());
    assert!(eval_unary(rend::ast::UnOp::Neg, &i(4), sp()).unwrap().same(&i(-4)));
    assert!(eval_unary(rend::ast::UnOp::Not, &Value::Bool(true), sp()).unwrap().same(&Value::Bool(false)));
}

#[test]
fn conversions_keep_the_number() {
    let mut some = 0usize;
    for target in 0u8..10 {
        if let Ok(v) = convert(&Value::U32(300), target, sp()) {
            assert_eq!(v.to_string(), "300");
            some += 1;
        }
    }
    assert!(some > 0);
}

#[test]
fn builtins_compute() {
    let s = |t: &str| Value::Str(t.to_string());
    let b = |name: &str, args: Vec<Value>| call_builtin(name, &args);
    assert!(b("to_be_bytes", vec![Value::U32(258)]).unwrap().same(&Value::Bytes(vec![0, 0, 1, 2])));
    assert!(b("string_contains", vec![s("hello"), s("ell")]).unwrap().same(&Value::Bool(true)));
    assert!(b("string_contains", vec![s("hello"), s("elo")]).unwrap().same(&Value::Bool(false)));
    assert!(b("no_such_builtin", vec![]).is_err());
}

#[test]
fn sets_hold_each_member_once() {
    let mut s: Vec<Value> = vec![];
    rend::ops::add_member(&mut s, Value::U64(1));
    rend::ops::add_member(&mut s, Value::U64(2));
    rend::ops::add_member(&mut s, Value::U64(1));
    assert_eq!(s.len(), 2);
    let rest = rend::ops::remove_member(&s, &Value::U64(1));
    assert!(rend::ops::find_member(&rest, &Value::U64(1)).is_none());
    let mut d: Vec<(Value, Value)> = vec![];
    rend::ops::add_entry(&mut d, Value::U64(1), Value::Bool(false));
    rend::ops::add_entry(&mut d, Value::U64(1), Value::Bool(true));
    assert_eq!(d.len(), 1);
    assert!(d[rend::ops::find_key(&d, &Value::U64(1)).unwrap()].1.same(&Value::Bool(true)));
}

#[test]
fn defaults_of_types() {
    assert!(default_for(&Type::Int).same(&Value::of_int(0)));
    assert!(default_for(&Type::Bool).same(&Value::Bool(false)));
    assert!(default_for(&Type::String).same(&Value::Str(String::new())));
    let m = module(vec![state("p", point_type())], vec![]);
    let v = state_default_values(&m);
    assert_eq!(v.len(), 1);
    assert!(matches!(&v[0], Value::Struct { name, fields } if name == "Point" && fields.len() == 2));
}

#[test]
fn keyable_values() {
    assert!(is_keyable_value(&Value::U64(1)));
    assert!(!is_keyable_value(&Value::PMap(1)));
    assert_eq!(value_to_u64(&Value::U32(9)), Some(9));
    assert_eq!(value_to_u64(&Value::of_int(-1)), None);
    assert!(Type::Int.is_copy());
    assert!(!Type::Resource.is_copy());
    assert!(Type::Address.is_keyable());
}

#[test]
fn sweeping_keeps_what_is_reached() {
    let mut kv = InMemoryKv { data: HashMap::new() };
    for k in 1u128..=4 {
        kv.data.insert(k, vec![k as u8]);
    }
    let live = vec![(1u128, Type::PMap { key: Box::new(Type::Int), value: Box::new(Type::Int) })];
    let reached = vec![vec![2u128]];
    let r = sweep(&live, &reached, &vec![1, 2, 3, 9], &mut kv);
    assert_eq!(r.swept, 1);
    assert!(kv.data.contains_key(&1) && kv.data.contains_key(&2) && kv.data.contains_key(&4));
    assert!(!kv.data.contains_key(&3));
}

#[test]
fn resources_are_used_once() {
    let twice = func(
        "twice",
        vec![("r", Type::Resource)],
        Type::Unit,
        vec![let_("a", id("r")), let_("b", id("r"))],
    );
    assert!(rend::affine::check(&module(vec![], vec![twice])).is_err());
    let twice = func("twice", vec![("n", Type::Int)], Type::Unit, vec![let_("a", id("n")), let_("b", id("n"))]);
    assert!(rend::affine::check(&module(vec![], vec![twice])).is_ok());
}

fn with_resource(stmts: Vec<Stmt>) -> Module {
    module(vec![], vec![func("f", vec![("r", Type::Resource), ("c", Type::Bool)], Type::Unit, stmts)])
}

#[test]
fn a_loop_moves_no_resource_from_outside() {
    let round = |stmts: Vec<Stmt>| Stmt::While { cond: id("c"), body: block(stmts), span: sp() };
    assert!(rend::affine::check(&with_resource(vec![round(vec![let_("a", id("r"))])])).is_err());
    assert!(rend::affine::check(&with_resource(vec![round(vec![let_("a", id("c"))]), let_("b", id("r"))])).is_ok());
    let inside = round(vec![let_("x", call_of("resource", vec![num(1)])), let_("y", id("x"))]);
    assert!(rend::affine::check(&with_resource(vec![inside])).is_ok());
}

#[test]
fn each_branch_may_move_a_resource() {
    let both = || {
        Stmt::If(IfStmt {
            cond: id("c"),
            then_block: block(vec![let_("a", id("r"))]),
            else_branch: ElseBranch::Block(block(vec![let_("b", id("r"))])),
            span: sp(),
        })
    };
    assert!(rend::affine::check(&with_resource(vec![both()])).is_ok());
    assert!(rend::affine::check(&with_resource(vec![both(), let_("d", id("r"))])).is_err());
    assert!(rend::affine::check(&with_resource(vec![when(id("c"), vec![let_("a", id("r"))]), let_("d", id("r"))])).is_err());
}

#[test]
fn a_block_gives_what_its_tail_is() {
    let taken = || {
        let_("x", e(ExprKind::Block(Block { stmts: vec![], tail: Some(Box::new(id("r"))), span: sp() })))
    };
    assert!(rend::affine::check(&with_resource(vec![taken(), let_("a", id("x"))])).is_ok());
    assert!(rend::affine::check(&with_resource(vec![taken(), let_("a", id("x")), let_("b", id("x"))])).is_err());
}

#[test]
fn placeholders_may_stand_inside_other_statements() {
    let mut f = func("main", vec![], Type::Int, vec![ret(num(7))]);
    f.modifiers.push(("Guard".to_string(), vec![]));
    let mut m = module(vec![], vec![f]);
    m.modifiers.push(modifier(
        "Guard",
        vec![when(e(ExprKind::Bool(true)), vec![Stmt::Placeholder(sp())]), ret(num(0))],
    ));
    expand(&mut m).unwrap();
    match &m.functions[0].body.stmts[0] {
        Stmt::If(i) => assert!(matches!(i.then_block.stmts[0], Stmt::Return { .. })),
        other => panic!("{other:?}"),
    }
    let v = run(&typed(m, "main"), &vec![], &Value::Unit, 1000).unwrap();
    assert!(v.same(&Value::of_int(7)));
}

#[test]
fn constants_do_not_see_locals() {
    let make = || {
        let mut m = module(
            vec![],
            vec![func("main", vec![], Type::Int, vec![let_("x", num(5)), ret(id("K"))])],
        );
        m.consts.push(rend::ast::ConstDecl { name: "x".to_string(), ty: Type::Int, value: num(1), span: sp() });
        m.consts.push(rend::ast::ConstDecl {
            name: "K".to_string(),
            ty: Type::Int,
            value: plus(id("x"), num(1)),
            span: sp(),
        });
        m
    };
    let v = run(&typed(make(), "main"), &vec![], &Value::Unit, 1000).unwrap();
    assert!(v.same(&Value::of_int(2)));
    let bc = built(&make());
    assert!(run_zeros(&bc, main_of(&bc), vec![]).same(&Value::of_int(2)));
}

#[test]
fn types_without_groups_are_read_without_a_list_of_them() {
    let t = Type::Struct {
        name: "P".to_string(),
        fields: vec![("x".to_string(), Type::Int)],
        field_groups: vec![None],
    };
    let mut out = vec![];
    rend::typecodec::write_type(&mut out, &t);
    let mut pos = 0;
    match rend::typecodec::read_type(&out, &mut pos).unwrap() {
        Type::Struct { fields, field_groups, .. } => {
            assert_eq!(fields.len(), 1);
            assert!(field_groups.is_empty());
        }
        other => panic!("{other:?}"),
    }
    assert_eq!(pos, out.len());
}

#[test]
fn parts_and_sequels_of_artifacts_are_refused() {
    let bytes = encode(&[built(&minimal())]);
    assert!(decode(&bytes).is_ok());
    for n in 0..bytes.len() {
        assert!(decode(&bytes[..n]).is_err(), "{n}");
    }
    let mut longer = bytes.clone();
    longer.push(0);
    assert!(decode(&longer).is_err());
    assert_eq!(&bytes[..8], b"REND-BC0");
}

#[test]
fn dictionaries_keep_what_was_set() {
    let b = |name: &str, args: Vec<Value>| call_builtin(name, &args).unwrap();
    let (i, t) = (Value::of_int, |s: &str| Value::Str(s.to_string()));
    let one = b("dict_set", vec![Value::Dict(vec![]), t("a"), i(1)]);
    let two = b("dict_set", vec![one.copy(), t("b"), i(2)]);
    let three = b("dict_set", vec![two.copy(), t("a"), i(3)]);
    assert!(b("dict_get", vec![two, t("a"), i(0)]).same(&i(1)));
    assert!(b("dict_get", vec![three.copy(), t("a"), i(0)]).same(&i(3)));
    assert!(b("dict_get", vec![three.copy(), t("b"), i(0)]).same(&i(2)));
    assert!(b("dict_get", vec![three, t("c"), i(0)]).same(&i(0)));
    let s = b("set_insert", vec![Value::SetOf(vec![i(1)]), i(2)]);
    match b("set_insert", vec![s, i(1)]) {
        Value::SetOf(members) => assert_eq!(members.len(), 2),
        other => panic!("{other:?}"),
    }
}

fn grouped_point() -> Type {
    Type::Struct {
        name: "Point".to_string(),
        fields: vec![("x".to_string(), Type::Int), ("y".to_string(), Type::Int)],
        field_groups: vec![Some("g".to_string()), None],
    }
}

#[test]
fn grouped_fields_have_no_cell_of_their_own() {
    let reads = |name: &str| {
        let m = module(
            vec![state("p", grouped_point())],
            vec![func("main", vec![], Type::Int, vec![ret(field(id("p"), name))])],
        );
        match run(&typed(m, "main"), &vec![], &Value::Unit, 1000) {
            Err(Halt::Need(Request::Read { key, .. })) => key,
            other => panic!("{other:?}"),
        }
    };
    let root = rend::hashing::state_root("main", "p");
    assert_eq!(reads("x"), root);
    assert_eq!(reads("y"), rend::hashing::child(root, b"y"));
}

#[test]
fn compiling_twice_gives_one_hash() {
    let a = Artifact::from_modules(vec![built(&bumper())]);
    let b = Artifact::from_modules(vec![built(&bumper())]);
    assert_eq!(a.bytes, b.bytes);
    assert_eq!(a.content_hash, b.content_hash);
}

#[test]
fn callers_have_the_effects_of_what_they_call() {
    let m = module(
        vec![state("a", Type::Int)],
        vec![
            func("w", vec![], Type::Unit, vec![assign(id("a"), num(1))]),
            func("r", vec![], Type::Int, vec![ret(id("a"))]),
            func("both", vec![], Type::Int, vec![Stmt::Expr(call_of("w", vec![])), ret(call_of("r", vec![]))]),
            func("none", vec![], Type::Int, vec![ret(num(1))]),
        ],
    );
    let t = classify(&m);
    assert_eq!(class_of(&t, "r"), EffectClass::ReadOnly);
    assert_eq!(class_of(&t, "w"), EffectClass::WriteOnly);
    assert_eq!(class_of(&t, "none"), EffectClass::Pure);
    let both = class_of(&t, "both");
    assert!(both != EffectClass::Pure && both != EffectClass::ReadOnly && both != EffectClass::WriteOnly);
}

#[test]
fn fields_are_read_of_the_inner_binding() {
    let inner = |stmts: Vec<Stmt>| when(id("c"), stmts);
    let fresh = || let_("r", call_of("resource", vec![num(1)]));
    let look = || let_("x", field(id("r"), "f"));
    assert!(rend::affine::check(&with_resource(vec![inner(vec![fresh(), look()])])).is_ok());
    let err = rend::affine::check(&with_resource(vec![inner(vec![fresh(), let_("a", id("r")), look()])])).unwrap_err();
    assert!(err.to_string().contains("used after move"));
    let moved = let_("a", id("r"));
    assert!(rend::affine::check(&with_resource(vec![moved, inner(vec![fresh(), look()])])).is_ok());
}

#[test]
fn filling_loops_fill_the_inner_binding() {
    let list = |items: Vec<i64>| e(ExprKind::Array(items.into_iter().map(num).collect()));
    let fill = Stmt::ParallelForTo {
        id_var: "x".to_string(),
        source: list(vec![4, 5]),
        output: id("out"),
        body: Block { stmts: vec![], tail: Some(Box::new(plus(id("x"), num(1)))), span: sp() },
        span: sp(),
    };
    let m = module(
        vec![],
        vec![func(
            "main",
            vec![],
            Type::Int,
            vec![
                let_("out", list(vec![0])),
                when(e(ExprKind::Bool(true)), vec![
                    let_("out", list(vec![0, 0])),
                    fill,
                    ret(index(id("out"), num(1))),
                ]),
                ret(num(0)),
            ],
        )],
    );
    let v = run(&typed(m, "main"), &vec![], &Value::Unit, 1000).unwrap();
    assert!(v.same(&Value::of_int(6)));
}

#[test]
fn one_set_of_modules_has_one_artifact() {
    let engine: Engine<HostFn> = Engine::new();
    let sources = vec![typed(library(), "lib"), typed(caller_of("one"), "app")];
    let a = engine.compile_modules(&sources).unwrap();
    let b = engine.compile_modules(&sources).unwrap();
    assert_eq!(a.bytes, b.bytes);
    assert_eq!(a.content_hash, b.content_hash);
    let deps = vec![engine.compile(typed(library(), "lib")).unwrap()];
    let tx = || engine.compile_tx(typed(caller_of("one"), "app"), &deps).unwrap();
    assert_eq!(tx().bytes, tx().bytes);
    assert_eq!(tx().content_hash, tx().content_hash);
}

#[test]
fn keys_that_are_equal_are_one_key() {
    let b = |name: &str, args: Vec<Value>| call_builtin(name, &args).unwrap();
    let json = |s: &str| rend::json::parse(s).unwrap();
    let (i, dict) = (Value::of_int, Value::Dict(vec![]));
    let one = b("dict_set", vec![dict, json(r#"{"a":1,"b":2}"#), i(1)]);
    let two = b("dict_set", vec![one, json(r#"{"b":2,"a":1}"#), i(2)]);
    let three = b("dict_set", vec![two, json(r#"{"a":1}"#), i(3)]);
    assert!(b("dict_len", vec![three.copy()]).same(&b("dict_len", vec![Value::Dict(vec![(i(1), i(1)), (i(2), i(2))])])));
    assert!(b("dict_get", vec![three.copy(), json(r#"{"a":1,"b":2}"#), i(0)]).same(&i(2)));
    assert!(b("dict_get", vec![three, json(r#"{"a":1}"#), i(0)]).same(&i(3)));
}

#[test]
fn compiled_jumps_land_in_the_code() {
    let m = module(
        vec![],
        vec![func(
            "main",
            vec![("n", Type::Int)],
            Type::Int,
            vec![
                let_("x", num(0)),
                Stmt::While {
                    cond: bin(BinOp::Lt, id("x"), id("n")),
                    body: block(vec![
                        when(bin(BinOp::Eq, id("x"), num(3)), vec![Stmt::Break(sp())]),
                        assign(id("x"), plus(id("x"), num(1))),
                    ]),
                    span: sp(),
                },
                ret(id("x")),
            ],
        )],
    );
    let bc = built(&m);
    let code = &main_of(&bc).code;
    for (k, i) in code.iter().enumerate() {
        if let Instr::Jump { offset } | Instr::JumpIfFalse { offset, .. } = i {
            let target = k as i64 + 1 + *offset as i64;
            assert!(0 <= target && target <= code.len() as i64, "{k}: {i:?}");
        }
    }
    assert!(run_zeros(&bc, main_of(&bc), vec![Value::of_int(9)]).same(&Value::of_int(3)));
}
