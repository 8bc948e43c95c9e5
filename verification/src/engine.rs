//! From checked modules to programs that can run: the checks, the compilation and
//! the linking, and what becomes of a run.

use vstd::prelude::*;
use std::collections::{HashMap, HashSet};
use crate::affine::fn_misuse;
use crate::artifact::{Artifact, mains};
use crate::ast::{FnDef, Import, Module, Type};
use crate::bc::{BcFn, BcModule, Const, ConstView, Instr, fn_names, last_named};
use crate::codegen::{ExternFn, ExternView, extern_views};
use crate::compile::{SourceView, byte_lists, compile_named_with_extras, compiles_source};
use crate::effects::{
    CtxView, EffectClass, EffectTable, class_map, classifies, classify_with_externals_and_iface_names,
    external_key, keeps_promise, promise_error, verify_purity_annotations,
};
use crate::error::{Error, ErrorKind, ErrorView};
use crate::host::{Host, HostError};
use crate::optimize::{optimize, optimized_fn, silent_calls};
use crate::tables::{find_last, name_set, place, Named};
use crate::text::{concat2, concat3, concat_num, decimal, same, text};
use crate::token::{Span, no_span};
use crate::value::Value;

verus! {

broadcast use vstd::std_specs::hash::group_hash_axioms;

/// An event that a program emitted.
#[derive(Debug)]
pub struct EmittedEvent {
    pub module: String,
    pub name: String,
    pub args: Vec<Value>,
}

/// What a run hands back to the host.
#[derive(Debug)]
pub struct ExecOutcome {
    pub result: Value,
    pub reads: HashMap<u128, Value>,
    pub writes: HashMap<u128, Value>,
    /// The emitted events, in order.
    pub events: Vec<EmittedEvent>,
    /// For each cell of a persistent map that was touched, its key and value types.
    pub pmap_types: HashMap<u128, (Type, Type)>,
    /// For each cell of a persistent vector that was touched, its element type.
    pub pvec_types: HashMap<u128, Type>,
    /// The cells that were written as nodes of persistent collections.
    pub node_cells_written: HashSet<u128>,
}

/// The result of a read-only run: an outcome without writes.
#[derive(Debug)]
pub struct QueryOutcome {
    pub result: Value,
    pub reads: HashMap<u128, Value>,
    pub events: Vec<EmittedEvent>,
}

/// A parsed, expanded and resolved module, with what type checking said of it.
#[derive(Debug)]
pub struct TypedModule {
    /// The name that the module is loaded under.
    pub name: String,
    pub module: Module,
    pub checked: Result<(), Error>,
    /// See [`crate::compile::Source`].
    pub plan: Vec<Vec<String>>,
    /// The stored forms of the initial values of the states.
    pub defaults: Vec<Vec<u8>>,
}

/// Who sent a transaction, and the block that it stands in.
#[derive(Debug, Clone, Copy)]
pub struct TxContext {
    pub sender: [u8; 20],
    pub block_timestamp: u64,
    pub block_number: u64,
}

impl Default for TxContext {
    /// All zero.
    fn default() -> (r: TxContext)
        ensures
            r.sender@ == Seq::new(20, |i: int| 0u8),
            r.block_timestamp == 0,
            r.block_number == 0,
    {
        let r = TxContext { sender: [0; 20], block_timestamp: 0, block_number: 0 };
        assert(r.sender@ =~= Seq::new(20, |i: int| 0u8));
        r
    }
}

/// The place of the module whose `main` is called, and the context of the call.
#[derive(Debug, Clone, Copy)]
pub struct Launch {
    pub main: usize,
    pub ctx: TxContext,
}

/// Modules that may run, and how.
#[derive(Debug)]
pub struct Program {
    pub modules: Vec<BcModule>,
    pub launch: Launch,
}

/// What a step owes: nothing, or an error.
pub type Verdict = Option<ErrorView>;

/// Whether a result is the owed one.
pub open spec fn judged(r: Result<(), Error>, want: Verdict) -> bool {
    match want {
        None => r is Ok,
        Some(x) => match r {
            Ok(_) => false,
            Err(e) => e@ == x,
        },
    }
}

pub open spec fn type_fault(msg: Seq<char>) -> ErrorView {
    ErrorView { kind: ErrorKind::Type, msg, span: no_span() }
}

fn fault(msg: String) -> (r: Error)
    ensures
        r@ == type_fault(msg@),
{
    Error::new(ErrorKind::Type, msg, Span::default())
}

/// The first misuse of a resource, from the `k`-th function on.
pub open spec fn misuse_from(m: Module, k: nat) -> Verdict
    decreases m.functions@.len() - k,
{
    if k >= m.functions@.len() {
        None
    } else {
        match fn_misuse(m, m.functions@[k as int]) {
            Some(e) => Some(e),
            None => misuse_from(m, k + 1),
        }
    }
}

proof fn lemma_misuse(m: Module, k: nat, j: int)
    requires
        k <= j <= m.functions@.len(),
        forall|i: int| k <= i < j ==> fn_misuse(m, #[trigger] m.functions@[i]) is None,
    ensures
        misuse_from(m, k) == misuse_from(m, j as nat),
    decreases j - k,
{
    if k < j {
        lemma_misuse(m, k + 1, j);
    }
}

fn check_affine(m: &Module) -> (r: Result<(), Error>)
    ensures
        judged(r, misuse_from(*m, 0)),
{
    let r = crate::affine::check(m);
    let ghost seen = r;
    proof {
        match seen {
            Ok(_) => lemma_misuse(*m, 0, m.functions@.len() as int),
            Err(e) => {
                let k = choose|k: int|
                    0 <= k < m.functions@.len() && fn_misuse(*m, #[trigger] m.functions@[k]) == Some(e@)
                        && forall|j: int|
                        0 <= j < k ==> fn_misuse(*m, #[trigger] m.functions@[j]) is None;
                lemma_misuse(*m, 0, k);
            },
        }
    }
    r
}

/// The first broken `pure` or `view` promise, from the `k`-th function on.
pub open spec fn broken_from(m: Module, t: EffectTable, k: nat) -> Verdict
    decreases m.functions@.len() - k,
{
    if k >= m.functions@.len() {
        None
    } else if !keeps_promise(m.functions@[k as int], t) {
        Some(promise_error(m.functions@[k as int], t))
    } else {
        broken_from(m, t, k + 1)
    }
}

proof fn lemma_broken(m: Module, t: EffectTable, k: nat, j: int)
    requires
        k <= j <= m.functions@.len(),
        forall|i: int| k <= i < j ==> keeps_promise(#[trigger] m.functions@[i], t),
    ensures
        broken_from(m, t, k) == broken_from(m, t, j as nat),
    decreases j - k,
{
    if k < j {
        lemma_broken(m, t, k + 1, j);
    }
}

fn check_purity(m: &Module, t: &EffectTable) -> (r: Result<(), Error>)
    ensures
        judged(r, broken_from(*m, *t, 0)),
{
    let r = verify_purity_annotations(m, t);
    let ghost seen = r;
    proof {
        match seen {
            Ok(_) => lemma_broken(*m, *t, 0, m.functions@.len() as int),
            Err(e) => {
                let k = choose|k: int|
                    0 <= k < m.functions@.len() && !keeps_promise(#[trigger] m.functions@[k], *t) && e@
                        == promise_error(m.functions@[k], *t) && forall|j: int|
                        0 <= j < k ==> keeps_promise(#[trigger] m.functions@[j], *t);
                lemma_broken(*m, *t, 0, k);
            },
        }
    }
    r
}

/// Whether `t` gives the classes of a module that stands alone.
#[verifier::opaque]
pub open spec fn classes_alone(m: Module, t: EffectTable) -> bool {
    classifies(CtxView { module: m, externals: Map::empty(), ifaces: Set::empty() }, t)
}

/// The error of the phases before, or that of the checks.
pub open spec fn front_error(checked: Result<(), Error>, m: Module, t: EffectTable) -> Verdict {
    match checked {
        Err(e) => Some(e@),
        Ok(_) => match misuse_from(m, 0) {
            Some(e) => Some(e),
            None => broken_from(m, t, 0),
        },
    }
}

fn classes_of(module: &Module) -> (r: EffectTable)
    ensures
        classes_alone(*module, r),
{
    let none: Vec<(String, EffectClass)> = Vec::new();
    let no_names: Vec<String> = Vec::new();
    let t = classify_with_externals_and_iface_names(module, &none, &no_names);
    proof {
        reveal(classes_alone);
        assert(name_set(no_names@) =~= Set::empty());
    }
    t
}

/// The checks of a module that stands alone: what type checking said, then the use
/// of resources, then the promises of its functions.
pub fn frontend(module: &Module, checked: &Result<(), Error>) -> (r: Result<(), Error>)
    ensures
        exists|t: EffectTable| #[trigger]
            classes_alone(*module, t) && judged(r, front_error(*checked, *module, t)),
{
    let t = classes_of(module);
    match checked {
        Err(e) => return Err(e.copy()),
        Ok(_) => {},
    }
    match check_affine(module) {
        Err(e) => return Err(e),
        Ok(_) => {},
    }
    check_purity(module, &t)
}

/// The first import without a host function, from the `k`-th on.
pub open spec fn unbound_from<F>(funcs: Seq<(String, F)>, s: Seq<Import>, k: nat) -> Option<int>
    decreases s.len() - k,
{
    if k >= s.len() {
        None
    } else if place(funcs, s[k as int].name@) is None {
        Some(k as int)
    } else {
        unbound_from(funcs, s, k + 1)
    }
}

/// The error for an import of a module without a host function; `module` is named
/// where several are loaded.
pub open spec fn import_error<F>(funcs: Seq<(String, F)>, s: Seq<Import>, module: Option<Seq<char>>) -> Verdict {
    match unbound_from(funcs, s, 0) {
        None => None,
        Some(k) => Some(
            ErrorView {
                kind: ErrorKind::Type,
                msg: match module {
                    None => "import '"@ + s[k].name@ + "' has no host impl bound"@,
                    Some(name) => "module '"@ + name + "': import '"@ + s[k].name@
                        + "' has no host impl bound"@,
                },
                span: s[k].span,
            },
        ),
    }
}

fn check_imports<F: Fn(&[Value]) -> Result<Value, HostError>>(
    host: &Host<F>,
    s: &Vec<Import>,
    module: Option<&str>,
) -> (r: Result<(), Error>)
    ensures
        judged(
            r,
            import_error(
                host.funcs@,
                s@,
                match module {
                    None => None,
                    Some(x) => Some(x@),
                },
            ),
        ),
{
    let mut k: usize = 0;
    while k < s.len()
        invariant
            k <= s@.len(),
            unbound_from(host.funcs@, s@, 0) == unbound_from(host.funcs@, s@, k as nat),
        decreases s@.len() - k,
    {
        if !host.has(s[k].name.as_str()) {
            let msg = match module {
                None => concat3("import '", s[k].name.as_str(), "' has no host impl bound"),
                Some(name) => {
                    let mut m = concat3("module '", name, "': import '");
                    m.append(s[k].name.as_str());
                    m.append("' has no host impl bound");
                    m
                },
            };
            return Err(Error::new(ErrorKind::Type, msg, s[k].span));
        }
        k = k + 1;
    }
    Ok(())
}

/// The first function whose code is longer than jumps can reach, from the `k`-th on.
pub open spec fn too_long_from(s: Seq<BcFn>, k: nat) -> Option<int>
    decreases s.len() - k,
{
    if k >= s.len() {
        None
    } else if s[k as int].code@.len() > i32::MAX {
        Some(k as int)
    } else {
        too_long_from(s, k + 1)
    }
}

fn find_too_long(s: &Vec<BcFn>) -> (r: Option<usize>)
    ensures
        match too_long_from(s@, 0) {
            Some(k) => match r {
                Some(x) => x == k && k < s@.len(),
                None => false,
            },
            None => r is None
                && forall|k: int| 0 <= k < s@.len() ==> (#[trigger] s@[k]).code@.len() <= i32::MAX,
        },
{
    let mut k: usize = 0;
    while k < s.len()
        invariant
            k <= s@.len(),
            too_long_from(s@, 0) == too_long_from(s@, k as nat),
            forall|j: int| 0 <= j < k ==> (#[trigger] s@[j]).code@.len() <= i32::MAX,
        decreases s@.len() - k,
    {
        if s[k].code.len() > 0x7fff_ffff {
            return Some(k);
        }
        k = k + 1;
    }
    None
}

/// Whether a module is another after optimization by these classes.
pub open spec fn is_optimized(before: BcModule, t: EffectTable, after: BcModule) -> bool {
    &&& after == (BcModule { functions: after.functions, ..before })
    &&& after.functions@.len() == before.functions@.len()
    &&& forall|k: int|
        0 <= k < after.functions@.len() ==> optimized_fn(
            before.functions@[k],
            #[trigger] after.functions@[k],
            silent_calls(before.functions@, t),
        )
}

/// What compilation, the check of the promises and optimization owe, where
/// compilation gave `c` and the classes are `t`.
pub open spec fn is_built(m: Module, c: Result<BcModule, Error>, t: EffectTable, r: Result<BcModule, Error>) -> bool {
    match c {
        Err(x) => r matches Err(e) && e@ == x@,
        Ok(bc) => match broken_from(m, t, 0) {
            Some(x) => r matches Err(e) && e@ == x,
            None => match too_long_from(bc.functions@, 0) {
                Some(k) => r matches Err(e) && e@ == type_fault(
                    "function '"@ + bc.functions@[k].name@ + "' is too long"@,
                ),
                None => r matches Ok(o) && is_optimized(bc, t, o),
            },
        },
    }
}

/// Whether a result is that of building a module: see [`is_built`].
pub open spec fn builds(
    s: SourceView,
    externals: Map<Seq<char>, EffectClass>,
    defaults: Seq<Seq<u8>>,
    r: Result<BcModule, Error>,
) -> bool {
    exists|c: Result<BcModule, Error>, t: EffectTable| #[trigger]
        compiles_source(s, defaults, c) && #[trigger] classifies(
            CtxView { module: s.module, externals, ifaces: s.ifaces },
            t,
        ) && is_built(s.module, c, t, r)
}

fn build(
    module: &Module,
    name: &str,
    ifaces: &Vec<String>,
    externs: &Vec<ExternFn>,
    externals: &Vec<(String, EffectClass)>,
    plan: &Vec<Vec<String>>,
    defaults: &Vec<Vec<u8>>,
) -> (r: Result<BcModule, Error>)
    ensures
        builds(
            (SourceView {
                module: *module,
                module_name: name@,
                ifaces: name_set(ifaces@),
                externs: extern_views(externs@),
                plan: plan@,
            }),
            class_map(externals@),
            byte_lists(defaults@),
            r,
        ),
{
    let ghost s = SourceView {
        module: *module,
        module_name: name@,
        ifaces: name_set(ifaces@),
        externs: extern_views(externs@),
        plan: plan@,
    };
    let ghost given = byte_lists(defaults@);
    let c = compile_named_with_extras(module, name, ifaces, externs, plan, defaults);
    let ghost c0 = c;
    let t = classify_with_externals_and_iface_names(module, externals, ifaces);
    assert(compiles_source(s, given, c0));
    assert(classifies(CtxView { module: s.module, externals: class_map(externals@), ifaces: s.ifaces }, t));
    let mut bc = match c {
        Ok(m) => m,
        Err(e) => {
            assert(is_built(s.module, c0, t, Err(e)));
            return Err(e);
        },
    };
    match check_purity(module, &t) {
        Ok(_) => {},
        Err(e) => {
            assert(is_built(s.module, c0, t, Err(e)));
            return Err(e);
        },
    }
    match find_too_long(&bc.functions) {
        Some(k) => {
            let e = fault(concat3("function '", bc.functions[k].name.as_str(), "' is too long"));
            assert(is_built(s.module, c0, t, Err(e)));
            return Err(e);
        },
        None => {},
    }
    let ghost before = bc;
    optimize(&mut bc, &t);
    assert(is_optimized(before, t, bc));
    assert(is_built(s.module, c0, t, Ok(bc)));
    Ok(bc)
}

/// The name of a module in messages and in storage: the declared one, or `main`.
pub open spec fn own_name(m: Module) -> Seq<char> {
    match m.name {
        Some(n) => n@,
        None => "main"@,
    }
}

fn find_own_name(m: &Module) -> (r: String)
    ensures
        r@ == own_name(*m),
{
    match &m.name {
        Some(n) => n.clone(),
        None => text("main"),
    }
}

/// The constant at a place of a pool, if it is a text.
pub open spec fn text_at(s: Seq<Const>, i: u16) -> Option<Seq<char>> {
    if i < s.len() {
        match s[i as int]@ {
            ConstView::Str(x) => Some(x),
            _ => None,
        }
    } else {
        None
    }
}

fn find_text(s: &Vec<Const>, i: u16) -> (r: Option<&String>)
    ensures
        match text_at(s@, i) {
            Some(x) => match r {
                Some(y) => y@ == x,
                None => false,
            },
            None => r is None,
        },
{
    if (i as usize) < s.len() {
        match &s[i as usize] {
            Const::Str(x) => Some(x),
            _ => None,
        }
    } else {
        None
    }
}

pub open spec fn module_names(ms: Seq<BcModule>) -> Seq<Seq<char>> {
    Seq::new(ms.len(), |i: int| ms[i].name@)
}

/// The last place of a name among modules.
pub open spec fn module_at(ms: Seq<BcModule>, name: Seq<char>) -> Option<int> {
    last_named(module_names(ms), name)
}

fn find_module(ms: &Vec<&BcModule>, name: &str) -> (r: Option<usize>)
    ensures
        match module_at(derefs(ms@), name@) {
            Some(k) => match r {
                Some(x) => x == k && k < ms@.len(),
                None => false,
            },
            None => r is None,
        },
{
    let mut i: usize = ms.len();
    let ghost all = module_names(derefs(ms@));
    assert(all.take(i as int) =~= all);
    while i > 0
        invariant
            i <= ms@.len(),
            all == module_names(derefs(ms@)),
            last_named(all, name@) == last_named(all.take(i as int), name@),
        decreases i,
    {
        i = i - 1;
        assert(all.take(i as int + 1).drop_last() =~= all.take(i as int));
        assert(all.take(i as int + 1).last() == ms@[i as int].name@);
        if same(ms[i].name.as_str(), name) {
            return Some(i);
        }
    }
    None
}

/// What is wrong with an instruction's call into another module.
pub open spec fn call_fault(ms: Seq<BcModule>, f: BcFn, i: Instr) -> Verdict {
    match i {
        Instr::CallExternal { dst, module_name_idx, fn_name_idx, args_start, n_args, is_view, is_pure } => {
            match (text_at(f.consts@, module_name_idx), text_at(f.consts@, fn_name_idx)) {
                (Some(mn), Some(fnn)) => match module_at(ms, mn) {
                    None => Some(type_fault("module '"@ + mn + "' is not loaded"@)),
                    Some(k) => match last_named(fn_names(ms[k]), fnn) {
                        None => Some(type_fault("'"@ + mn + "::"@ + fnn + "' is not defined"@)),
                        Some(j) => if ms[k].functions@[j].is_entry {
                            None
                        } else {
                            Some(type_fault("'"@ + mn + "::"@ + fnn + "' is not an entry function"@))
                        },
                    },
                },
                _ => Some(type_fault("expected string const for module/function name"@)),
            }
        },
        _ => None,
    }
}

fn qualified(a: &str, b: &str, tail: &str) -> (r: String)
    ensures
        r@ == "'"@ + a@ + "::"@ + b@ + tail@,
{
    let mut s = concat3("'", a, "::");
    s.append(b);
    s.append(tail);
    s
}

fn check_call(ms: &Vec<&BcModule>, f: &BcFn, i: &Instr) -> (r: Result<(), Error>)
    ensures
        judged(r, call_fault(derefs(ms@), *f, *i)),
{
    match i {
        Instr::CallExternal {
            dst: _,
            module_name_idx,
            fn_name_idx,
            args_start: _,
            n_args: _,
            is_view: _,
            is_pure: _,
        } => match (find_text(&f.consts, *module_name_idx), find_text(&f.consts, *fn_name_idx)) {
            (Some(mn), Some(fnn)) => match find_module(ms, mn.as_str()) {
                None => Err(fault(concat3("module '", mn.as_str(), "' is not loaded"))),
                Some(k) => match ms[k].find_fn(fnn.as_str()) {
                    None => Err(fault(qualified(mn.as_str(), fnn.as_str(), "' is not defined"))),
                    Some(j) => if ms[k].functions[j].is_entry {
                        Ok(())
                    } else {
                        Err(fault(qualified(mn.as_str(), fnn.as_str(), "' is not an entry function")))
                    },
                },
            },
            _ => Err(fault(text("expected string const for module/function name"))),
        },
        _ => Ok(()),
    }
}

pub open spec fn code_fault(ms: Seq<BcModule>, f: BcFn, k: nat) -> Verdict
    decreases f.code@.len() - k,
{
    if k >= f.code@.len() {
        None
    } else {
        match call_fault(ms, f, f.code@[k as int]) {
            Some(e) => Some(e),
            None => code_fault(ms, f, k + 1),
        }
    }
}

pub open spec fn fns_fault(ms: Seq<BcModule>, s: Seq<BcFn>, k: nat) -> Verdict
    decreases s.len() - k,
{
    if k >= s.len() {
        None
    } else {
        match code_fault(ms, s[k as int], 0) {
            Some(e) => Some(e),
            None => fns_fault(ms, s, k + 1),
        }
    }
}

/// The first call into another module that does not name an entry function of a
/// loaded module, from the `k`-th module on.
pub open spec fn link_fault(ms: Seq<BcModule>, k: nat) -> Verdict
    decreases ms.len() - k,
{
    if k >= ms.len() {
        None
    } else {
        match fns_fault(ms, ms[k as int].functions@, 0) {
            Some(e) => Some(e),
            None => link_fault(ms, k + 1),
        }
    }
}

fn check_code(ms: &Vec<&BcModule>, f: &BcFn) -> (r: Result<(), Error>)
    ensures
        judged(r, code_fault(derefs(ms@), *f, 0)),
{
    let mut k: usize = 0;
    while k < f.code.len()
        invariant
            k <= f.code@.len(),
            code_fault(derefs(ms@), *f, 0) == code_fault(derefs(ms@), *f, k as nat),
        decreases f.code@.len() - k,
    {
        match check_call(ms, f, &f.code[k]) {
            Ok(_) => {},
            Err(e) => return Err(e),
        }
        k = k + 1;
    }
    Ok(())
}

fn check_fns(ms: &Vec<&BcModule>, s: &Vec<BcFn>) -> (r: Result<(), Error>)
    ensures
        judged(r, fns_fault(derefs(ms@), s@, 0)),
{
    let mut k: usize = 0;
    while k < s.len()
        invariant
            k <= s@.len(),
            fns_fault(derefs(ms@), s@, 0) == fns_fault(derefs(ms@), s@, k as nat),
        decreases s@.len() - k,
    {
        match check_code(ms, &s[k]) {
            Ok(_) => {},
            Err(e) => return Err(e),
        }
        k = k + 1;
    }
    Ok(())
}

/// Confirms that every call into another module names an entry function of a loaded
/// module.
pub fn validate_cross_module_calls(ms: &Vec<&BcModule>) -> (r: Result<(), Error>)
    ensures
        judged(r, link_fault(derefs(ms@), 0)),
{
    let mut k: usize = 0;
    while k < ms.len()
        invariant
            k <= ms@.len(),
            link_fault(derefs(ms@), 0) == link_fault(derefs(ms@), k as nat),
        decreases ms@.len() - k,
    {
        match check_fns(ms, &ms[k].functions) {
            Ok(_) => {},
            Err(e) => return Err(e),
        }
        k = k + 1;
    }
    Ok(())
}

/// The first host import of a compiled module without a host function, from the
/// `k`-th on.
pub open spec fn host_fault<F>(funcs: Seq<(String, F)>, m: BcModule, k: nat) -> Verdict
    decreases m.imports@.len() - k,
{
    if k >= m.imports@.len() {
        None
    } else if place(funcs, m.imports@[k as int]@) is None {
        Some(
            type_fault(
                "module '"@ + m.name@ + "': host import '"@ + m.imports@[k as int]@ + "' has no impl bound"@,
            ),
        )
    } else {
        host_fault(funcs, m, k + 1)
    }
}

pub open spec fn hosts_fault<F>(funcs: Seq<(String, F)>, ms: Seq<BcModule>, k: nat) -> Verdict
    decreases ms.len() - k,
{
    if k >= ms.len() {
        None
    } else {
        match host_fault(funcs, ms[k as int], 0) {
            Some(e) => Some(e),
            None => hosts_fault(funcs, ms, k + 1),
        }
    }
}

fn check_host<F: Fn(&[Value]) -> Result<Value, HostError>>(host: &Host<F>, m: &BcModule) -> (r: Result<(), Error>)
    ensures
        judged(r, host_fault(host.funcs@, *m, 0)),
{
    let mut k: usize = 0;
    while k < m.imports.len()
        invariant
            k <= m.imports@.len(),
            host_fault(host.funcs@, *m, 0) == host_fault(host.funcs@, *m, k as nat),
        decreases m.imports@.len() - k,
    {
        if !host.has(m.imports[k].as_str()) {
            let mut s = concat3("module '", m.name.as_str(), "': host import '");
            s.append(m.imports[k].as_str());
            s.append("' has no impl bound");
            return Err(fault(s));
        }
        k = k + 1;
    }
    Ok(())
}

fn check_hosts<F: Fn(&[Value]) -> Result<Value, HostError>>(host: &Host<F>, ms: &Vec<&BcModule>) -> (r: Result<(), Error>)
    ensures
        judged(r, hosts_fault(host.funcs@, derefs(ms@), 0)),
{
    let mut k: usize = 0;
    while k < ms.len()
        invariant
            k <= ms@.len(),
            hosts_fault(host.funcs@, derefs(ms@), 0) == hosts_fault(host.funcs@, derefs(ms@), k as nat),
        decreases ms@.len() - k,
    {
        match check_host(host, ms[k]) {
            Ok(_) => {},
            Err(e) => return Err(e),
        }
        k = k + 1;
    }
    Ok(())
}

/// The modules of a list, by reference.
pub open spec fn derefs(s: Seq<&BcModule>) -> Seq<BcModule> {
    Seq::new(s.len(), |i: int| *s[i])
}

fn all_refs<'a>(v: &'a Vec<BcModule>) -> (r: Vec<&'a BcModule>)
    ensures
        derefs(r@) == v@,
{
    let mut r: Vec<&'a BcModule> = Vec::new();
    let mut i: usize = 0;
    while i < v.len()
        invariant
            i <= v@.len(),
            r@.len() == i,
            forall|j: int| 0 <= j < i ==> *(#[trigger] r@[j]) == v@[j],
        decreases v@.len() - i,
    {
        r.push(&v[i]);
        i = i + 1;
    }
    assert(derefs(r@) =~= v@);
    r
}

/// Where the `main` to call stands, or why the modules cannot run.
pub open spec fn run_place<F>(
    funcs: Seq<(String, F)>,
    ms: Seq<BcModule>,
    main_module: Seq<char>,
    absent: Seq<char>,
) -> Result<int, ErrorView> {
    match hosts_fault(funcs, ms, 0) {
        Some(e) => Err(e),
        None => match link_fault(ms, 0) {
            Some(e) => Err(e),
            None => match module_at(ms, main_module) {
                None => Err(type_fault("main module '"@ + main_module + absent)),
                Some(k) => Ok(k),
            },
        },
    }
}

/// Whether a result is the owed place.
pub open spec fn placed(r: Result<usize, Error>, want: Result<int, ErrorView>) -> bool {
    match want {
        Ok(k) => match r {
            Ok(x) => x == k,
            Err(_) => false,
        },
        Err(x) => match r {
            Ok(_) => false,
            Err(e) => e@ == x,
        },
    }
}

fn find_run_place<F: Fn(&[Value]) -> Result<Value, HostError>>(
    host: &Host<F>,
    ms: &Vec<&BcModule>,
    main_module: &str,
    absent: &str,
) -> (r: Result<usize, Error>)
    ensures
        placed(r, run_place(host.funcs@, derefs(ms@), main_module@, absent@)),
{
    match check_hosts(host, ms) {
        Ok(_) => {},
        Err(e) => return Err(e),
    }
    match validate_cross_module_calls(ms) {
        Ok(_) => {},
        Err(e) => return Err(e),
    }
    match find_module(ms, main_module) {
        Some(k) => Ok(k),
        None => Err(fault(concat3("main module '", main_module, absent))),
    }
}

/// The modules of the first `n` artifacts, in order.
pub open spec fn dep_modules(deps: Seq<Artifact>, n: nat) -> Seq<BcModule>
    decreases n,
{
    if n == 0 || n > deps.len() {
        seq![]
    } else {
        dep_modules(deps, (n - 1) as nat) + deps[n - 1].modules@
    }
}

fn collect_modules<'a>(deps: &'a Vec<Artifact>) -> (r: Vec<&'a BcModule>)
    ensures
        derefs(r@) == dep_modules(deps@, deps@.len()),
{
    let mut r: Vec<&'a BcModule> = Vec::new();
    assert(derefs(r@) =~= dep_modules(deps@, 0));
    let mut i: usize = 0;
    while i < deps.len()
        invariant
            i <= deps@.len(),
            derefs(r@) == dep_modules(deps@, i as nat),
        decreases deps@.len() - i,
    {
        let mut more = all_refs(&deps[i].modules);
        r.append(&mut more);
        i = i + 1;
    }
    r
}

/// The first module whose name an earlier one has, from the `k`-th on.
pub open spec fn repeated_from(ms: Seq<BcModule>, k: nat) -> Option<int>
    decreases ms.len() - k,
{
    if k >= ms.len() {
        None
    } else if module_at(ms.take(k as int), ms[k as int].name@) is Some {
        Some(k as int)
    } else {
        repeated_from(ms, k + 1)
    }
}

proof fn lemma_named(names: Seq<Seq<char>>, name: Seq<char>)
    ensures
        last_named(names, name) is Some <==> names.contains(name),
    decreases names.len(),
{
    crate::bc::lemma_last_named(names, name);
    match last_named(names, name) {
        Some(k) => assert(names[k] == name),
        None => {},
    }
}

fn find_repeated(ms: &Vec<&BcModule>) -> (r: Option<usize>)
    ensures
        match repeated_from(derefs(ms@), 0) {
            Some(k) => match r {
                Some(x) => x == k && k < ms@.len(),
                None => false,
            },
            None => r is None,
        },
{
    let mut k: usize = 0;
    while k < ms.len()
        invariant
            k <= ms@.len(),
            repeated_from(derefs(ms@), 0) == repeated_from(derefs(ms@), k as nat),
        decreases ms@.len() - k,
    {
        let mut j: usize = 0;
        let ghost before = module_names(derefs(ms@).take(k as int));
        proof {
            lemma_named(before, ms@[k as int].name@);
        }
        while j < k
            invariant
                j <= k < ms@.len(),
                before == module_names(derefs(ms@).take(k as int)),
                forall|i: int| 0 <= i < j ==> (#[trigger] ms@[i]).name@ != ms@[k as int].name@,
                last_named(before, ms@[k as int].name@) is Some <==> before.contains(ms@[k as int].name@),
                repeated_from(derefs(ms@), 0) == repeated_from(derefs(ms@), k as nat),
            decreases k - j,
        {
            if same(ms[j].name.as_str(), ms[k].name.as_str()) {
                assert(before[j as int] == ms@[k as int].name@);
                return Some(k);
            }
            j = j + 1;
        }
        assert forall|i: int| 0 <= i < before.len() implies #[trigger] before[i] != ms@[k as int].name@ by {
            assert(before[i] == ms@[i].name@);
        }
        k = k + 1;
    }
    None
}

/// What the annotations of an entry function promise.
pub open spec fn declared_class(is_view: bool, is_pure: bool) -> EffectClass {
    if is_pure {
        EffectClass::Pure
    } else if is_view {
        EffectClass::ReadOnly
    } else {
        EffectClass::Impure
    }
}

fn promised_class(is_view: bool, is_pure: bool) -> (r: EffectClass)
    ensures
        r == declared_class(is_view, is_pure),
{
    if is_pure {
        EffectClass::Pure
    } else if is_view {
        EffectClass::ReadOnly
    } else {
        EffectClass::Impure
    }
}

/// The entry functions among the first `n` of a definition list.
pub open spec fn decl_entries(module: Seq<char>, s: Seq<FnDef>, n: nat) -> Seq<ExternView>
    decreases n,
{
    if n == 0 || n > s.len() {
        seq![]
    } else {
        let f = s[n - 1];
        let before = decl_entries(module, s, (n - 1) as nat);
        if f.is_entry {
            before.push(ExternView { module, name: f.name@, is_view: f.is_view, is_pure: f.is_pure })
        } else {
            before
        }
    }
}

/// The entry functions of the first `n` loaded modules.
pub open spec fn all_decl_entries(s: Seq<TypedModule>, n: nat) -> Seq<ExternView>
    decreases n,
{
    if n == 0 || n > s.len() {
        seq![]
    } else {
        all_decl_entries(s, (n - 1) as nat) + decl_entries(
            s[n - 1].name@,
            s[n - 1].module.functions@,
            s[n - 1].module.functions@.len(),
        )
    }
}

/// The entry functions among the first `n` compiled ones.
pub open spec fn fn_entries(module: Seq<char>, s: Seq<BcFn>, n: nat) -> Seq<ExternView>
    decreases n,
{
    if n == 0 || n > s.len() {
        seq![]
    } else {
        let f = s[n - 1];
        let before = fn_entries(module, s, (n - 1) as nat);
        if f.is_entry {
            before.push(ExternView { module, name: f.name@, is_view: f.is_view, is_pure: f.is_pure })
        } else {
            before
        }
    }
}

/// The entry functions of the first `n` compiled modules.
pub open spec fn dep_entries(ms: Seq<BcModule>, n: nat) -> Seq<ExternView>
    decreases n,
{
    if n == 0 || n > ms.len() {
        seq![]
    } else {
        dep_entries(ms, (n - 1) as nat) + fn_entries(
            ms[n - 1].name@,
            ms[n - 1].functions@,
            ms[n - 1].functions@.len(),
        )
    }
}

/// What entry functions promise, by `module::name`.
pub open spec fn entry_classes(s: Seq<ExternView>) -> Map<Seq<char>, EffectClass>
    decreases s.len(),
{
    if s.len() == 0 {
        Map::empty()
    } else {
        entry_classes(s.drop_last()).insert(
            external_key(s.last().module, s.last().name),
            declared_class(s.last().is_view, s.last().is_pure),
        )
    }
}

fn entry_key(module: &str, name: &str) -> (r: String)
    ensures
        r@ == external_key(module@, name@),
{
    concat3(module, "::", name)
}

fn push_entry(
    module: &String,
    name: &String,
    is_view: bool,
    is_pure: bool,
    flags: &mut Vec<ExternFn>,
    classes: &mut Vec<(String, EffectClass)>,
)
    ensures
        extern_views(final(flags)@) == extern_views(old(flags)@).push(
            (ExternView { module: module@, name: name@, is_view, is_pure }),
        ),
        class_map(final(classes)@) == class_map(old(classes)@).insert(
            external_key(module@, name@),
            declared_class(is_view, is_pure),
        ),
{
    flags.push(ExternFn { module: module.clone(), name: name.clone(), is_view, is_pure });
    classes.push((entry_key(module.as_str(), name.as_str()), promised_class(is_view, is_pure)));
    assert(classes@.drop_last() =~= old(classes)@);
    assert(extern_views(flags@) =~= extern_views(old(flags)@).push(
        ExternView { module: module@, name: name@, is_view, is_pure },
    ));
}

/// The entry functions of the modules that are loaded together, as flags and as
/// classes.
fn collect_decl_entries(s: &Vec<TypedModule>) -> (r: (Vec<ExternFn>, Vec<(String, EffectClass)>))
    ensures
        extern_views(r.0@) == all_decl_entries(s@, s@.len()),
        class_map(r.1@) == entry_classes(all_decl_entries(s@, s@.len())),
{
    let mut flags: Vec<ExternFn> = Vec::new();
    let mut classes: Vec<(String, EffectClass)> = Vec::new();
    assert(extern_views(flags@) =~= seq![]);
    let mut i: usize = 0;
    while i < s.len()
        invariant
            i <= s@.len(),
            extern_views(flags@) == all_decl_entries(s@, i as nat),
            class_map(classes@) == entry_classes(all_decl_entries(s@, i as nat)),
        decreases s@.len() - i,
    {
        let m = &s[i];
        let fs = &m.module.functions;
        let ghost before = all_decl_entries(s@, i as nat);
        let mut j: usize = 0;
        assert(before + decl_entries(m.name@, fs@, 0) =~= before);
        while j < fs.len()
            invariant
                j <= fs@.len(),
                extern_views(flags@) == before + decl_entries(m.name@, fs@, j as nat),
                class_map(classes@) == entry_classes(before + decl_entries(m.name@, fs@, j as nat)),
            decreases fs@.len() - j,
        {
            let f = &fs[j];
            if f.is_entry {
                let ghost now = before + decl_entries(m.name@, fs@, j as nat);
                let ghost e = ExternView { module: m.name@, name: f.name@, is_view: f.is_view, is_pure: f.is_pure };
                push_entry(&m.name, &f.name, f.is_view, f.is_pure, &mut flags, &mut classes);
                assert(before + decl_entries(m.name@, fs@, (j + 1) as nat) =~= now.push(e));
                assert(now.push(e).drop_last() =~= now);
            }
            j = j + 1;
        }
        i = i + 1;
    }
    (flags, classes)
}

/// The entry functions of compiled modules, as flags and as classes.
fn collect_dep_entries(ms: &Vec<&BcModule>) -> (r: (Vec<ExternFn>, Vec<(String, EffectClass)>))
    ensures
        extern_views(r.0@) == dep_entries(derefs(ms@), ms@.len()),
        class_map(r.1@) == entry_classes(dep_entries(derefs(ms@), ms@.len())),
{
    let mut flags: Vec<ExternFn> = Vec::new();
    let mut classes: Vec<(String, EffectClass)> = Vec::new();
    assert(extern_views(flags@) =~= seq![]);
    let mut i: usize = 0;
    while i < ms.len()
        invariant
            i <= ms@.len(),
            extern_views(flags@) == dep_entries(derefs(ms@), i as nat),
            class_map(classes@) == entry_classes(dep_entries(derefs(ms@), i as nat)),
        decreases ms@.len() - i,
    {
        let m = ms[i];
        let fs = &m.functions;
        let ghost before = dep_entries(derefs(ms@), i as nat);
        let mut j: usize = 0;
        assert(before + fn_entries(m.name@, fs@, 0) =~= before);
        while j < fs.len()
            invariant
                j <= fs@.len(),
                extern_views(flags@) == before + fn_entries(m.name@, fs@, j as nat),
                class_map(classes@) == entry_classes(before + fn_entries(m.name@, fs@, j as nat)),
            decreases fs@.len() - j,
        {
            let f = &fs[j];
            if f.is_entry {
                let ghost now = before + fn_entries(m.name@, fs@, j as nat);
                let ghost e = ExternView { module: m.name@, name: f.name@, is_view: f.is_view, is_pure: f.is_pure };
                push_entry(&m.name, &f.name, f.is_view, f.is_pure, &mut flags, &mut classes);
                assert(before + fn_entries(m.name@, fs@, (j + 1) as nat) =~= now.push(e));
                assert(now.push(e).drop_last() =~= now);
            }
            j = j + 1;
        }
        i = i + 1;
    }
    (flags, classes)
}

/// Whether a result is that of compiling a module that stands alone.
pub open spec fn builds_alone(t: TypedModule, r: Result<BcModule, Error>) -> bool {
    builds(
        SourceView {
            module: t.module,
            module_name: own_name(t.module),
            ifaces: Set::empty(),
            externs: seq![],
            plan: t.plan@,
        },
        Map::empty(),
        byte_lists(t.defaults@),
        r,
    )
}

/// Whether a result is that of checking and compiling a module that stands alone:
/// what type checking said, the use of resources, the promises, the imports, and
/// then compilation.
pub open spec fn single_built<F>(funcs: Seq<(String, F)>, t: TypedModule, r: Result<BcModule, Error>) -> bool {
    exists|tab: EffectTable| #[trigger]
        classes_alone(t.module, tab) && match front_error(t.checked, t.module, tab) {
            Some(x) => r matches Err(e) && e@ == x,
            None => match import_error(funcs, t.module.imports@, None) {
                Some(x) => r matches Err(e) && e@ == x,
                None => builds_alone(t, r),
            },
        }
}

/// Whether a result is that of checking and compiling one of several modules, which
/// have these entry functions.
pub open spec fn one_built<F>(
    funcs: Seq<(String, F)>,
    t: TypedModule,
    entries: Seq<ExternView>,
    r: Result<BcModule, Error>,
) -> bool {
    match t.checked {
        Err(x) => r matches Err(e) && e@ == x@,
        Ok(_) => match misuse_from(t.module, 0) {
            Some(x) => r matches Err(e) && e@ == x,
            None => match import_error(funcs, t.module.imports@, Some(t.name@)) {
                Some(x) => r matches Err(e) && e@ == x,
                None => builds(
                    SourceView {
                        module: t.module,
                        module_name: t.name@,
                        ifaces: Set::empty(),
                        externs: entries,
                        plan: t.plan@,
                    },
                    entry_classes(entries),
                    byte_lists(t.defaults@),
                    r,
                ),
            },
        },
    }
}

/// Whether a result is that of checking and compiling several modules, in order.
pub open spec fn all_built<F>(
    funcs: Seq<(String, F)>,
    s: Seq<TypedModule>,
    entries: Seq<ExternView>,
    r: Result<Vec<BcModule>, Error>,
) -> bool {
    match r {
        Ok(v) => v@.len() == s.len() && forall|i: int|
            0 <= i < s.len() ==> one_built(funcs, s[i], entries, Ok(#[trigger] v@[i])),
        Err(e) => exists|k: int, done: Seq<BcModule>| #[trigger] stops_at(funcs, s, entries, k, done, e),
    }
}

/// Whether the first `k` modules were built and the next one failed.
pub open spec fn stops_at<F>(
    funcs: Seq<(String, F)>,
    s: Seq<TypedModule>,
    entries: Seq<ExternView>,
    k: int,
    done: Seq<BcModule>,
    e: Error,
) -> bool {
    &&& 0 <= k < s.len()
    &&& done.len() == k
    &&& forall|i: int| 0 <= i < k ==> one_built(funcs, s[i], entries, Ok(#[trigger] done[i]))
    &&& one_built(funcs, s[k], entries, Err(e))
}

/// The first module that is loaded under another name than it declares, from the
/// `k`-th on.
pub open spec fn misnamed_from(s: Seq<TypedModule>, k: nat) -> Verdict
    decreases s.len() - k,
{
    if k >= s.len() {
        None
    } else {
        match s[k as int].module.name {
            Some(n) => if n@ != s[k as int].name@ {
                Some(
                    type_fault(
                        "module declared as '"@ + n@ + "' but loaded as '"@ + s[k as int].name@ + "'"@,
                    ),
                )
            } else {
                misnamed_from(s, k + 1)
            },
            None => misnamed_from(s, k + 1),
        }
    }
}

fn check_names(s: &Vec<TypedModule>) -> (r: Result<(), Error>)
    ensures
        judged(r, misnamed_from(s@, 0)),
{
    let mut k: usize = 0;
    while k < s.len()
        invariant
            k <= s@.len(),
            misnamed_from(s@, 0) == misnamed_from(s@, k as nat),
        decreases s@.len() - k,
    {
        match &s[k].module.name {
            Some(n) => {
                if !same(n.as_str(), s[k].name.as_str()) {
                    let mut m = concat3("module declared as '", n.as_str(), "' but loaded as '");
                    m.append(s[k].name.as_str());
                    m.append("'");
                    return Err(fault(m));
                }
            },
            None => {},
        }
        k = k + 1;
    }
    Ok(())
}

/// Whether a result is that of compiling and linking several modules.
pub open spec fn set_built<F>(funcs: Seq<(String, F)>, s: Seq<TypedModule>, r: Result<Vec<BcModule>, Error>) -> bool {
    match misnamed_from(s, 0) {
        Some(x) => r matches Err(e) && e@ == x,
        None => exists|b: Result<Vec<BcModule>, Error>| #[trigger]
            all_built(funcs, s, all_decl_entries(s, s.len()), b) && match b {
                Err(x) => r matches Err(e) && e@ == x@,
                Ok(v) => match link_fault(v@, 0) {
                    Some(x) => r matches Err(e) && e@ == x,
                    None => r matches Ok(w) && w@ == v@,
                },
            },
    }
}

/// The error for the first source that declares no name, or one that an earlier
/// source declares, from the `k`-th on.
pub open spec fn undeclared_from(s: Seq<TypedModule>, what: Seq<char>, k: nat) -> Verdict
    decreases s.len() - k,
{
    if k >= s.len() {
        None
    } else {
        match s[k as int].module.name {
            None => Some(
                ErrorView {
                    kind: ErrorKind::Parse,
                    msg: what + ": source is missing a `module <name>;` declaration"@,
                    span: no_span(),
                },
            ),
            Some(n) => if declares(s.take(k as int), n@) {
                Some(type_fault("duplicate module name '"@ + n@ + "' across sources"@))
            } else {
                undeclared_from(s, what, k + 1)
            },
        }
    }
}

/// Whether one of the sources declares a name.
pub open spec fn declares(s: Seq<TypedModule>, name: Seq<char>) -> bool {
    exists|i: int| 0 <= i < s.len() && declares_name(#[trigger] s[i], name)
}

pub open spec fn declares_name(t: TypedModule, name: Seq<char>) -> bool {
    match t.module.name {
        Some(n) => n@ == name,
        None => false,
    }
}

fn check_declared(s: &Vec<TypedModule>, what: &str) -> (r: Result<(), Error>)
    ensures
        judged(r, undeclared_from(s@, what@, 0)),
{
    let mut k: usize = 0;
    while k < s.len()
        invariant
            k <= s@.len(),
            undeclared_from(s@, what@, 0) == undeclared_from(s@, what@, k as nat),
        decreases s@.len() - k,
    {
        let n = match &s[k].module.name {
            Some(n) => n,
            None => return Err(
                Error::new(
                    ErrorKind::Parse,
                    concat2(what, ": source is missing a `module <name>;` declaration"),
                    Span::default(),
                ),
            ),
        };
        let mut j: usize = 0;
        while j < k
            invariant
                j <= k < s@.len(),
                s@[k as int].module.name == Some(*n),
                undeclared_from(s@, what@, 0) == undeclared_from(s@, what@, k as nat),
                forall|i: int| 0 <= i < j ==> !declares_name(#[trigger] s@[i], n@),
            decreases k - j,
        {
            match &s[j].module.name {
                Some(o) => {
                    if same(o.as_str(), n.as_str()) {
                        assert(declares_name(s@.take(k as int)[j as int], n@));
                        return Err(
                            fault(
                                concat3("duplicate module name '", n.as_str(), "' across sources"),
                            ),
                        );
                    }
                },
                None => {},
            }
            j = j + 1;
        }
        assert(!declares(s@.take(k as int), n@)) by {
            if declares(s@.take(k as int), n@) {
                let i = choose|i: int|
                    0 <= i < s@.take(k as int).len() && declares_name(#[trigger] s@.take(k as int)[i], n@);
                assert(declares_name(s@[i], n@));
            }
        }
        k = k + 1;
    }
    Ok(())
}

/// The names of the interfaces that compiled modules declare.
pub open spec fn iface_names(ms: Seq<BcModule>) -> Set<Seq<char>> {
    Set::new(|name: Seq<char>| declares_iface(ms, name))
}

/// Whether a list holds the names of the interfaces that compiled modules declare.
pub open spec fn iface_names_are(r: Seq<String>, ms: Seq<BcModule>) -> bool {
    forall|name: Seq<char>| #[trigger] named_in(r, name) <==> declares_iface(ms, name)
}

pub open spec fn named_in(r: Seq<String>, name: Seq<char>) -> bool {
    exists|i: int| 0 <= i < r.len() && (#[trigger] r[i])@ == name
}

pub open spec fn declares_iface(ms: Seq<BcModule>, name: Seq<char>) -> bool {
    exists|i: int, j: int|
        0 <= i < ms.len()
            && 0 <= j < ms[i].interfaces@.len()
            && (#[trigger] ms[i].interfaces@[j]).name@ == name
}

#[verifier::rlimit(30)]
fn collect_ifaces(ms: &Vec<&BcModule>) -> (r: Vec<String>)
    ensures
        name_set(r@) == iface_names(derefs(ms@)),
{
    let mut r: Vec<String> = Vec::new();
    let mut i: usize = 0;
    while i < ms.len()
        invariant
            i <= ms@.len(),
            iface_names_are(r@, derefs(ms@).take(i as int)),
        decreases ms@.len() - i,
    {
        let fs = &ms[i].interfaces;
        let ghost r0 = r@;
        let mut j: usize = 0;
        while j < fs.len()
            invariant
                i < ms@.len(),
                *fs == ms@[i as int].interfaces,
                j <= fs@.len(),
                r@.len() == r0.len() + j,
                forall|k: int| 0 <= k < r0.len() ==> r@[k] == r0[k],
                forall|k: int| 0 <= k < j ==> (#[trigger] r@[r0.len() + k])@ == fs@[k].name@,
            decreases fs@.len() - j,
        {
            r.push(fs[j].name.clone());
            j = j + 1;
        }
        assert forall|name: Seq<char>| #[trigger] named_in(r@, name) <==> declares_iface(
            derefs(ms@).take(i as int + 1),
            name,
        ) by {
            let before = derefs(ms@).take(i as int);
            let after = derefs(ms@).take(i as int + 1);
            if named_in(r@, name) {
                let k = choose|k: int| 0 <= k < r@.len() && (#[trigger] r@[k])@ == name;
                if k < r0.len() {
                    assert(r0[k]@ == name);
                    assert(named_in(r0, name));
                    let (a, b) = choose|a: int, b: int|
                        0 <= a < before.len() && 0 <= b < before[a].interfaces@.len()
                            && (#[trigger] before[a].interfaces@[b]).name@ == name;
                    assert(after[a].interfaces@[b].name@ == name);
                } else {
                    let b = k - r0.len();
                    assert(r@[r0.len() + b]@ == fs@[b].name@);
                    assert(after[i as int].interfaces@[b].name@ == name);
                }
            }
            if declares_iface(after, name) {
                let (a, b) = choose|a: int, b: int|
                    0 <= a < after.len() && 0 <= b < after[a].interfaces@.len()
                        && (#[trigger] after[a].interfaces@[b]).name@ == name;
                if a < i {
                    assert(before[a].interfaces@[b].name@ == name);
                    assert(declares_iface(before, name));
                    assert(named_in(r0, name));
                    let k = choose|k: int| 0 <= k < r0.len() && (#[trigger] r0[k])@ == name;
                    assert(r@[k]@ == name);
                } else {
                    assert(r@[r0.len() + b]@ == name);
                }
            }
        }
        i = i + 1;
    }
    assert(derefs(ms@).take(ms@.len() as int) =~= derefs(ms@));
    assert forall|name: Seq<char>| name_set(r@).contains(name) <==> iface_names(derefs(ms@)).contains(name) by {
        crate::tables::lemma_place(r@, name);
        assert(named_in(r@, name) <==> declares_iface(derefs(ms@), name));
        match place(r@, name) {
            Some(k) => assert(r@[k]@ == name),
            None => {
                if named_in(r@, name) {
                    let k = choose|k: int| 0 <= k < r@.len() && (#[trigger] r@[k])@ == name;
                    assert(r@[k].nm() == name);
                }
            },
        }
    }
    assert(name_set(r@) =~= iface_names(derefs(ms@)));
    r
}

/// The modules without those whose names earlier ones have, after `acc`.
pub open spec fn distinct_after(acc: Seq<BcModule>, ms: Seq<BcModule>, k: nat) -> Seq<BcModule>
    decreases ms.len() - k,
{
    if k >= ms.len() {
        acc
    } else if module_at(acc, ms[k as int].name@) is Some {
        distinct_after(acc, ms, k + 1)
    } else {
        distinct_after(acc.push(ms[k as int]), ms, k + 1)
    }
}

/// What a transaction module owes before it is compiled: a `main`, a name that no
/// dependency has, and the checks.
pub open spec fn tx_error<F>(funcs: Seq<(String, F)>, t: TypedModule, deps: Seq<BcModule>) -> Verdict {
    if place(t.module.functions@, "main"@) is None {
        Some(type_fault("compile_tx: tx source must define a `main` fn"@))
    } else if module_at(deps, own_name(t.module)) is Some {
        Some(
            type_fault(
                "tx module name '"@ + own_name(t.module)
                    + "' collides with a deployed dep — pick a different module name in the tx source"@,
            ),
        )
    } else {
        match t.checked {
            Err(x) => Some(x@),
            Ok(_) => match misuse_from(t.module, 0) {
                Some(x) => Some(x),
                None => import_error(funcs, t.module.imports@, None),
            },
        }
    }
}

/// Whether a result is that of compiling a transaction that knows the interfaces and
/// the entry functions of its dependencies.
pub open spec fn builds_tx(t: TypedModule, deps: Seq<BcModule>, r: Result<BcModule, Error>) -> bool {
    let entries = dep_entries(deps, deps.len());
    builds(
        SourceView {
            module: t.module,
            module_name: own_name(t.module),
            ifaces: iface_names(deps),
            externs: entries,
            plan: t.plan@,
        },
        entry_classes(entries),
        byte_lists(t.defaults@),
        r,
    )
}

/// Whether a result is that of compiling a transaction against its dependencies.
pub open spec fn tx_built<F>(
    funcs: Seq<(String, F)>,
    t: TypedModule,
    deps: Seq<BcModule>,
    r: Result<BcModule, Error>,
) -> bool {
    match tx_error(funcs, t, deps) {
        Some(x) => r matches Err(e) && e@ == x,
        None => exists|b: Result<BcModule, Error>| #[trigger]
            builds_tx(t, deps, b) && match b {
                Err(x) => r matches Err(e) && e@ == x@,
                Ok(bc) => match link_fault(distinct_after(seq![bc], deps, 0), 0) {
                    Some(x) => r matches Err(e) && e@ == x,
                    None => r matches Ok(o) && o == bc,
                },
            },
    }
}

/// The modules of a transaction and of its dependencies.
pub open spec fn tx_modules(tx: Artifact, deps: Seq<Artifact>) -> Seq<BcModule> {
    tx.modules@ + dep_modules(deps, deps.len())
}

/// Where the `main` of a transaction stands among its modules and those of its
/// dependencies, or why it cannot run.
pub open spec fn tx_place<F>(funcs: Seq<(String, F)>, tx: Artifact, deps: Seq<Artifact>, what: Seq<char>) -> Result<
    int,
    ErrorView,
> {
    let found = mains(tx.modules@, tx.modules@.len());
    if found.len() == 0 {
        Err(type_fault(what + ": tx artifact has no `main` fn"@))
    } else if found.len() > 1 {
        Err(type_fault("artifact has more than one module with a `main` fn — ambiguous"@))
    } else {
        let ms = tx_modules(tx, deps);
        match repeated_from(ms, 0) {
            Some(k) => Err(
                type_fault("duplicate module '"@ + ms[k].name@ + "' across tx and deps"@),
            ),
            None => run_place(
                funcs,
                ms,
                tx.modules@[found[0]].name@,
                "' is not present in tx or deps"@,
            ),
        }
    }
}

/// Whether a result is the owed launch.
pub open spec fn launched(r: Result<Launch, Error>, want: Result<int, ErrorView>, ctx: TxContext) -> bool {
    match want {
        Ok(k) => match r {
            Ok(x) => x.main == k && x.ctx == ctx,
            Err(_) => false,
        },
        Err(x) => match r {
            Ok(_) => false,
            Err(e) => e@ == x,
        },
    }
}

pub open spec fn zero_context(c: TxContext) -> bool {
    c.sender@ == Seq::new(20, |i: int| 0u8) && c.block_timestamp == 0 && c.block_number == 0
}

/// Compiles, links and launches programs for a host.
#[derive(Debug)]
pub struct Engine<F> {
    pub host: Host<F>,
}

impl<F: Fn(&[Value]) -> Result<Value, HostError>> Engine<F> {
    pub fn new() -> (r: Engine<F>)
        ensures
            r.host.funcs@.len() == 0,
    {
        Engine { host: Host::new() }
    }

    /// Binds a host function.
    pub fn bind(&mut self, name: String, f: F)
        ensures
            final(self).host.funcs@ == old(self).host.funcs@.push((name, f)),
    {
        self.host.bind(name, f);
    }

    pub fn host(&self) -> (r: &Host<F>)
        ensures
            *r == self.host,
    {
        &self.host
    }

    fn compile_single(&self, t: TypedModule) -> (r: Result<BcModule, Error>)
        ensures
            single_built(self.host.funcs@, t, r),
    {
        let ghost t0 = t;
        match frontend(&t.module, &t.checked) {
            Ok(_) => {},
            Err(e) => return Err(e),
        }
        match check_imports(&self.host, &t.module.imports, None) {
            Ok(_) => {},
            Err(e) => return Err(e),
        }
        let own = find_own_name(&t.module);
        let name: &str = own.as_str();
        let no_names: Vec<String> = Vec::new();
        let no_fns: Vec<ExternFn> = Vec::new();
        let none: Vec<(String, EffectClass)> = Vec::new();
        let r = build(&t.module, name, &no_names, &no_fns, &none, &t.plan, &t.defaults);
        proof {
            assert(name_set(no_names@) =~= Set::empty());
            assert(extern_views(no_fns@) =~= seq![]);
            assert(builds_alone(t0, r));
        }
        r
    }

    /// Compiles and links one module; its `main` is then called in a zeroed context.
    pub fn execute(&self, t: TypedModule) -> (r: Result<Program, Error>)
        ensures
            exists|b: Result<BcModule, Error>| #[trigger]
                single_built(self.host.funcs@, t, b) && match b {
                    Err(x) => r matches Err(e) && e@ == x@,
                    Ok(bc) => r matches Ok(p) && p.modules@ == seq![bc] && p.launch.main == 0
                        && zero_context(p.launch.ctx),
                },
    {
        self.execute_with_context(t, TxContext::default())
    }

    /// Compiles and links one module; its `main` is then called in a context.
    pub fn execute_with_context(&self, t: TypedModule, ctx: TxContext) -> (r: Result<Program, Error>)
        ensures
            exists|b: Result<BcModule, Error>| #[trigger]
                single_built(self.host.funcs@, t, b) && match b {
                    Err(x) => r matches Err(e) && e@ == x@,
                    Ok(bc) => r matches Ok(p) && p.modules@ == seq![bc] && p.launch.main == 0 && p.launch.ctx
                        == ctx,
                },
    {
        let ghost t0 = t;
        let b = self.compile_single(t);
        assert(single_built(self.host.funcs@, t0, b));
        match b {
            Err(e) => Err(e),
            Ok(bc) => {
                let ghost bc0 = bc;
                let mut modules: Vec<BcModule> = Vec::new();
                modules.push(bc);
                assert(modules@ =~= seq![bc0]);
                Ok(Program { modules, launch: Launch { main: 0, ctx } })
            },
        }
    }

    /// The value that a run gave.
    pub fn run(&self, ran: Result<ExecOutcome, Error>) -> (r: Result<Value, Error>)
        ensures
            match ran {
                Ok(o) => r == Ok::<Value, Error>(o.result),
                Err(e) => r == Err::<Value, Error>(e),
            },
    {
        match ran {
            Ok(o) => Ok(o.result),
            Err(e) => Err(e),
        }
    }

    fn compile_one(&self, t: &TypedModule, flags: &Vec<ExternFn>, classes: &Vec<(String, EffectClass)>) -> (r: Result<
        BcModule,
        Error,
    >)
        requires
            class_map(classes@) == entry_classes(extern_views(flags@)),
        ensures
            one_built(self.host.funcs@, *t, extern_views(flags@), r),
    {
        match &t.checked {
            Err(e) => return Err(e.copy()),
            Ok(_) => {},
        }
        match check_affine(&t.module) {
            Ok(_) => {},
            Err(e) => return Err(e),
        }
        match check_imports(&self.host, &t.module.imports, Some(t.name.as_str())) {
            Ok(_) => {},
            Err(e) => return Err(e),
        }
        let none: Vec<String> = Vec::new();
        let name: &str = t.name.as_str();
        let r = build(&t.module, name, &none, flags, classes, &t.plan, &t.defaults);
        assert(name_set(none@) =~= Set::empty());
        r
    }

    fn compile_all(
        &self,
        s: &Vec<TypedModule>,
        flags: &Vec<ExternFn>,
        classes: &Vec<(String, EffectClass)>,
    ) -> (r: Result<
        Vec<BcModule>,
        Error,
    >)
        requires
            class_map(classes@) == entry_classes(extern_views(flags@)),
        ensures
            all_built(self.host.funcs@, s@, extern_views(flags@), r),
    {
        let mut out: Vec<BcModule> = Vec::new();
        let mut i: usize = 0;
        while i < s.len()
            invariant
                i <= s@.len(),
                out@.len() == i,
                class_map(classes@) == entry_classes(extern_views(flags@)),
                forall|j: int|
                    0 <= j < i ==> one_built(
                        self.host.funcs@,
                        s@[j],
                        extern_views(flags@),
                        Ok(#[trigger] out@[j]),
                    ),
            decreases s@.len() - i,
        {
            match self.compile_one(&s[i], flags, classes) {
                Ok(bc) => out.push(bc),
                Err(e) => {
                    assert(stops_at(self.host.funcs@, s@, extern_views(flags@), i as int, out@, e));
                    return Err(e);
                },
            }
            i = i + 1;
        }
        Ok(out)
    }

    fn compile_module_set(&self, s: &Vec<TypedModule>) -> (r: Result<Vec<BcModule>, Error>)
        ensures
            set_built(self.host.funcs@, s@, r),
    {
        match check_names(s) {
            Ok(_) => {},
            Err(e) => return Err(e),
        }
        let (flags, classes) = collect_decl_entries(s);
        let b = self.compile_all(s, &flags, &classes);
        let ghost b0 = b;
        assert(all_built(self.host.funcs@, s@, all_decl_entries(s@, s@.len()), b0));
        match b {
            Err(e) => Err(e),
            Ok(v) => {
                let ms = all_refs(&v);
                match validate_cross_module_calls(&ms) {
                    Err(e) => Err(e),
                    Ok(_) => Ok(v),
                }
            },
        }
    }

    /// Compiles and links modules that declare their names; the `main` of one of
    /// them is then called in a zeroed context.
    pub fn execute_modules(&self, sources: &Vec<TypedModule>, main_module: &str) -> (r: Result<Program, Error>)
        ensures
            match undeclared_from(sources@, "execute_modules"@, 0) {
                Some(x) => r matches Err(e) && e@ == x,
                None => exists|ctx: TxContext| #[trigger]
                    zero_context(ctx) && program_built(self.host.funcs@, sources@, main_module@, ctx, r),
            },
    {
        match check_declared(sources, "execute_modules") {
            Ok(_) => {},
            Err(e) => return Err(e),
        }
        self.execute_main(sources, main_module)
    }

    /// Compiles and links modules; the `main` of one of them is then called in a
    /// zeroed context.
    pub fn execute_main(&self, sources: &Vec<TypedModule>, main_module: &str) -> (r: Result<Program, Error>)
        ensures
            exists|ctx: TxContext| #[trigger]
                zero_context(ctx) && program_built(self.host.funcs@, sources@, main_module@, ctx, r),
    {
        let ctx = TxContext::default();
        assert(zero_context(ctx));
        self.execute_main_with_context(sources, main_module, ctx)
    }

    /// Compiles and links modules; the `main` of one of them is then called in a
    /// context.
    pub fn execute_main_with_context(
        &self,
        sources: &Vec<TypedModule>,
        main_module: &str,
        ctx: TxContext,
    ) -> (r: Result<
        Program,
        Error,
    >)
        ensures
            program_built(self.host.funcs@, sources@, main_module@, ctx, r),
    {
        let b = self.compile_module_set(sources);
        let ghost b0 = b;
        assert(set_built(self.host.funcs@, sources@, b0));
        match b {
            Err(e) => Err(e),
            Ok(v) => {
                let ms = all_refs(&v);
                match find_module(&ms, main_module) {
                    None => Err(fault(concat3("main module '", main_module, "' is not loaded"))),
                    Some(k) => Ok(Program { modules: v, launch: Launch { main: k, ctx } }),
                }
            },
        }
    }

    /// Compiles one module into an artifact.
    pub fn compile(&self, t: TypedModule) -> (r: Result<Artifact, Error>)
        ensures
            compiled(self.host.funcs@, t, r),
    {
        let ghost t0 = t;
        let b = self.compile_single(t);
        assert(single_built(self.host.funcs@, t0, b));
        match b {
            Err(e) => Err(e),
            Ok(bc) => Ok(pack_one(bc)),
        }
    }

    /// Compiles modules that declare their names into one artifact.
    pub fn compile_modules(&self, sources: &Vec<TypedModule>) -> (r: Result<Artifact, Error>)
        ensures
            set_compiled(self.host.funcs@, sources@, r),
    {
        match check_declared(sources, "compile_modules") {
            Ok(_) => {},
            Err(e) => return Err(e),
        }
        let b = self.compile_module_set(sources);
        assert(set_built(self.host.funcs@, sources@, b));
        match b {
            Err(e) => Err(e),
            Ok(v) => Ok(Artifact::from_modules(v)),
        }
    }

    /// Checks that an artifact can run, and finds the module to start.
    pub fn execute_artifact(&self, artifact: &Artifact, main_module: &str) -> (r: Result<Launch, Error>)
        ensures
            exists|ctx: TxContext| #[trigger]
                zero_context(ctx) && launched(
                    r,
                    run_place(
                        self.host.funcs@,
                        artifact.modules@,
                        main_module@,
                        "' is not present in the artifact"@,
                    ),
                    ctx,
                ),
    {
        let ctx = TxContext::default();
        assert(zero_context(ctx));
        self.execute_artifact_with_context(artifact, main_module, ctx)
    }

    /// Checks that an artifact can run, and finds the module to start in a context:
    /// its host imports are bound, and its calls between modules resolve.
    pub fn execute_artifact_with_context(&self, artifact: &Artifact, main_module: &str, ctx: TxContext) -> (r: Result<
        Launch,
        Error,
    >)
        ensures
            launched(
                r,
                run_place(
                    self.host.funcs@,
                    artifact.modules@,
                    main_module@,
                    "' is not present in the artifact"@,
                ),
                ctx,
            ),
    {
        let ms = all_refs(&artifact.modules);
        match find_run_place(&self.host, &ms, main_module, "' is not present in the artifact") {
            Ok(main) => Ok(Launch { main, ctx }),
            Err(e) => Err(e),
        }
    }

    /// Finds the `main` that a deployment calls once, if there is one.
    pub fn deploy(&self, artifact: &Artifact) -> (r: Result<Option<Launch>, Error>)
        ensures
            exists|ctx: TxContext| #[trigger]
                zero_context(ctx) && deployed(self.host.funcs@, *artifact, ctx, r),
    {
        let ctx = TxContext::default();
        assert(zero_context(ctx));
        self.deploy_with_context(artifact, ctx)
    }

    /// Finds the `main` that a deployment calls once in a context, if there is one.
    pub fn deploy_with_context(&self, artifact: &Artifact, ctx: TxContext) -> (r: Result<Option<Launch>, Error>)
        ensures
            deployed(self.host.funcs@, *artifact, ctx, r),
    {
        match artifact.main_module() {
            Err(e) => Err(e),
            Ok(None) => Ok(None),
            Ok(Some(name)) => match self.execute_artifact_with_context(artifact, name, ctx) {
                Ok(l) => Ok(Some(l)),
                Err(e) => Err(e),
            },
        }
    }

    /// Compiles a transaction against the entry functions of its dependencies. The
    /// artifact holds only the module of the transaction.
    pub fn compile_tx(&self, t: TypedModule, deps: &Vec<Artifact>) -> (r: Result<Artifact, Error>)
        ensures
            tx_compiled(self.host.funcs@, t, dep_modules(deps@, deps@.len()), r),
    {
        let ms = collect_modules(deps);
        let b = self.compile_tx_module(&t, &ms);
        assert(tx_built(self.host.funcs@, t, dep_modules(deps@, deps@.len()), b));
        match b {
            Err(e) => Err(e),
            Ok(bc) => Ok(pack_one(bc)),
        }
    }

    fn check_tx(&self, t: &TypedModule, deps: &Vec<&BcModule>) -> (r: Result<(), Error>)
        ensures
            judged(r, tx_error(self.host.funcs@, *t, derefs(deps@))),
    {
        if find_last(&t.module.functions, "main").is_none() {
            return Err(fault(text("compile_tx: tx source must define a `main` fn")));
        }
        let name = find_own_name(&t.module);
        if find_module(deps, name.as_str()).is_some() {
            return Err(
                fault(
                    concat3(
                        "tx module name '",
                        name.as_str(),
                        "' collides with a deployed dep — pick a different module name in the tx source",
                    ),
                ),
            );
        }
        match &t.checked {
            Err(e) => return Err(e.copy()),
            Ok(_) => {},
        }
        match check_affine(&t.module) {
            Ok(_) => {},
            Err(e) => return Err(e),
        }
        check_imports(&self.host, &t.module.imports, None)
    }

    fn compile_tx_module(&self, t: &TypedModule, deps: &Vec<&BcModule>) -> (r: Result<BcModule, Error>)
        ensures
            tx_built(self.host.funcs@, *t, derefs(deps@), r),
    {
        match self.check_tx(t, deps) {
            Ok(_) => {},
            Err(e) => return Err(e),
        }
        let own = find_own_name(&t.module);
        let name: &str = own.as_str();
        let ifaces = collect_ifaces(deps);
        let (flags, classes) = collect_dep_entries(deps);
        let b = build(&t.module, name, &ifaces, &flags, &classes, &t.plan, &t.defaults);
        let ghost b0 = b;
        assert(builds_tx(*t, derefs(deps@), b0));
        match b {
            Err(e) => Err(e),
            Ok(bc) => {
                let all = distinct_modules(&bc, deps);
                match validate_cross_module_calls(&all) {
                    Err(e) => Err(e),
                    Ok(_) => Ok(bc),
                }
            },
        }
    }

    /// Checks that a transaction can run with its dependencies, and finds its `main`.
    pub fn execute_tx(&self, tx: &Artifact, deps: &Vec<Artifact>) -> (r: Result<Launch, Error>)
        ensures
            exists|ctx: TxContext| #[trigger]
                zero_context(ctx) && launched(
                    r,
                    tx_place(self.host.funcs@, *tx, deps@, "execute_tx"@),
                    ctx,
                ),
    {
        let ctx = TxContext::default();
        assert(zero_context(ctx));
        self.execute_tx_with_context(tx, deps, ctx)
    }

    /// Checks that a transaction can run with its dependencies, and finds its `main`,
    /// to be called in a context. The place is one among the modules of the
    /// transaction, followed by those of the dependencies.
    pub fn execute_tx_with_context(&self, tx: &Artifact, deps: &Vec<Artifact>, ctx: TxContext) -> (r: Result<
        Launch,
        Error,
    >)
        ensures
            launched(r, tx_place(self.host.funcs@, *tx, deps@, "execute_tx"@), ctx),
    {
        match self.find_tx_place(tx, deps, "execute_tx") {
            Ok(main) => Ok(Launch { main, ctx }),
            Err(e) => Err(e),
        }
    }

    fn find_tx_place(&self, tx: &Artifact, deps: &Vec<Artifact>, what: &str) -> (r: Result<usize, Error>)
        ensures
            placed(r, tx_place(self.host.funcs@, *tx, deps@, what@)),
    {
        let name = match tx.main_module() {
            Err(e) => return Err(e),
            Ok(None) => return Err(fault(concat2(what, ": tx artifact has no `main` fn"))),
            Ok(Some(name)) => name,
        };
        let mut all = all_refs(&tx.modules);
        let mut more = collect_modules(deps);
        all.append(&mut more);
        assert(derefs(all@) =~= tx_modules(*tx, deps@));
        match find_repeated(&all) {
            Some(k) => return Err(
                fault(concat3("duplicate module '", all[k].name.as_str(), "' across tx and deps")),
            ),
            None => {},
        }
        find_run_place(&self.host, &all, name, "' is not present in tx or deps")
    }

    /// Checks that a transaction may run read-only, and finds its `main`.
    pub fn query(&self, tx: &Artifact, deps: &Vec<Artifact>) -> (r: Result<Launch, Error>)
        ensures
            exists|ctx: TxContext| #[trigger]
                zero_context(ctx) && launched(r, query_place(self.host.funcs@, *tx, deps@), ctx),
    {
        let ctx = TxContext::default();
        assert(zero_context(ctx));
        self.query_with_context(tx, deps, ctx)
    }

    /// Checks that a transaction may run read-only, and finds its `main`, to be called
    /// in a context. What the run gave goes through [`read_only`].
    pub fn query_with_context(&self, tx: &Artifact, deps: &Vec<Artifact>, ctx: TxContext) -> (r: Result<Launch, Error>)
        ensures
            launched(r, query_place(self.host.funcs@, *tx, deps@), ctx),
    {
        let name = match tx.main_module() {
            Err(e) => return Err(e),
            Ok(None) => return Err(fault(text("query: tx artifact has no `main` fn"))),
            Ok(Some(name)) => name,
        };
        if !main_is_read_only(&tx.modules, name) {
            return Err(
                fault(
                    text(
                        "query: tx `main` must be declared `view` or `pure` to run on the read-only path",
                    ),
                ),
            );
        }
        self.execute_tx_with_context(tx, deps, ctx)
    }
}

/// The first module with a name, from the `k`-th on.
pub open spec fn first_module(s: Seq<BcModule>, name: Seq<char>, k: nat) -> Option<int>
    decreases s.len() - k,
{
    if k >= s.len() {
        None
    } else if s[k as int].name@ == name {
        Some(k as int)
    } else {
        first_module(s, name, k + 1)
    }
}

/// The first function called `main`, from the `k`-th on.
pub open spec fn first_main(s: Seq<BcFn>, k: nat) -> Option<int>
    decreases s.len() - k,
{
    if k >= s.len() {
        None
    } else if s[k as int].name@ == "main"@ {
        Some(k as int)
    } else {
        first_main(s, k + 1)
    }
}

/// Whether the `main` of a module is declared `view` or `pure`.
pub open spec fn read_only_main(s: Seq<BcModule>, name: Seq<char>) -> bool {
    match first_module(s, name, 0) {
        None => false,
        Some(k) => match first_main(s[k].functions@, 0) {
            None => false,
            Some(j) => s[k].functions@[j].is_view || s[k].functions@[j].is_pure,
        },
    }
}

fn main_is_read_only(s: &Vec<BcModule>, name: &str) -> (r: bool)
    ensures
        r == read_only_main(s@, name@),
{
    let mut k: usize = 0;
    while k < s.len()
        invariant
            k <= s@.len(),
            first_module(s@, name@, 0) == first_module(s@, name@, k as nat),
        decreases s@.len() - k,
    {
        if same(s[k].name.as_str(), name) {
            let fs = &s[k].functions;
            let mut j: usize = 0;
            while j < fs.len()
                invariant
                    k < s@.len(),
                    *fs == s@[k as int].functions,
                    j <= fs@.len(),
                    first_module(s@, name@, 0) == Some(k as int),
                    first_main(fs@, 0) == first_main(fs@, j as nat),
                decreases fs@.len() - j,
            {
                if same(fs[j].name.as_str(), "main") {
                    return fs[j].is_view || fs[j].is_pure;
                }
                j = j + 1;
            }
            return false;
        }
        k = k + 1;
    }
    false
}

/// Where the `main` of a read-only transaction stands, or why it cannot run.
pub open spec fn query_place<F>(funcs: Seq<(String, F)>, tx: Artifact, deps: Seq<Artifact>) -> Result<int, ErrorView> {
    let found = mains(tx.modules@, tx.modules@.len());
    if found.len() == 0 {
        Err(type_fault("query: tx artifact has no `main` fn"@))
    } else if found.len() > 1 {
        Err(type_fault("artifact has more than one module with a `main` fn — ambiguous"@))
    } else if !read_only_main(tx.modules@, tx.modules@[found[0]].name@) {
        Err(
            type_fault(
                "query: tx `main` must be declared `view` or `pure` to run on the read-only path"@,
            ),
        )
    } else {
        tx_place(funcs, tx, deps, "execute_tx"@)
    }
}

/// The outcome of a read-only run, which must not have written.
pub fn read_only(outcome: ExecOutcome) -> (r: Result<QueryOutcome, Error>)
    ensures
        if outcome.writes@.len() == 0 {
            r matches Ok(q) && q.result == outcome.result && q.reads == outcome.reads && q.events
                == outcome.events
        } else {
            r matches Err(e) && e@ == (ErrorView {
                kind: ErrorKind::Runtime,
                msg: "query: tx wrote "@ + decimal(outcome.writes@.len())
                    + " cell(s) — `view`/`pure` annotation was violated by a callee"@,
                span: no_span(),
            })
        },
{
    let n: usize = outcome.writes.len();
    if n != 0 {
        return Err(
            Error::new(
                ErrorKind::Runtime,
                concat_num(
                    "query: tx wrote ",
                    n as u128,
                    " cell(s) — `view`/`pure` annotation was violated by a callee",
                ),
                Span::default(),
            ),
        );
    }
    Ok(QueryOutcome { result: outcome.result, reads: outcome.reads, events: outcome.events })
}

/// Whether a result is that of compiling and linking modules, with the place of the
/// main module.
pub open spec fn program_built<F>(
    funcs: Seq<(String, F)>,
    s: Seq<TypedModule>,
    main_module: Seq<char>,
    ctx: TxContext,
    r: Result<Program, Error>,
) -> bool {
    exists|b: Result<Vec<BcModule>, Error>| #[trigger]
        set_built(funcs, s, b) && match b {
            Err(x) => r matches Err(e) && e@ == x@,
            Ok(v) => match module_at(v@, main_module) {
                None => r matches Err(e) && e@ == type_fault(
                    "main module '"@ + main_module + "' is not loaded"@,
                ),
                Some(k) => r matches Ok(p) && p.modules@ == v@ && p.launch.main == k && p.launch.ctx == ctx,
            },
        }
}

/// Whether a result is that of compiling a module into an artifact.
pub open spec fn compiled<F>(funcs: Seq<(String, F)>, t: TypedModule, r: Result<Artifact, Error>) -> bool {
    exists|b: Result<BcModule, Error>| #[trigger]
        single_built(funcs, t, b) && match b {
            Err(x) => r matches Err(e) && e@ == x@,
            Ok(bc) => r matches Ok(a) && packs(a, seq![bc]),
        }
}

/// Whether a result is that of compiling modules that declare their names into one
/// artifact.
pub open spec fn set_compiled<F>(funcs: Seq<(String, F)>, s: Seq<TypedModule>, r: Result<Artifact, Error>) -> bool {
    match undeclared_from(s, "compile_modules"@, 0) {
        Some(x) => r matches Err(e) && e@ == x,
        None => exists|b: Result<Vec<BcModule>, Error>| #[trigger]
            set_built(funcs, s, b) && match b {
                Err(x) => r matches Err(e) && e@ == x@,
                Ok(v) => r matches Ok(a) && packs(a, v@),
            },
    }
}

/// Whether a result is that of compiling a transaction into an artifact.
pub open spec fn tx_compiled<F>(
    funcs: Seq<(String, F)>,
    t: TypedModule,
    deps: Seq<BcModule>,
    r: Result<Artifact, Error>,
) -> bool {
    exists|b: Result<BcModule, Error>| #[trigger]
        tx_built(funcs, t, deps, b) && match b {
            Err(x) => r matches Err(e) && e@ == x@,
            Ok(bc) => r matches Ok(a) && packs(a, seq![bc]),
        }
}

/// Whether an artifact is that of these modules.
pub open spec fn packs(a: Artifact, s: Seq<BcModule>) -> bool {
    &&& a.modules@ == s
    &&& a.bytes@ == crate::artifact::artifact_bytes(crate::codec::models(s))
    &&& a.content_hash == crate::artifact::artifact_id(a.bytes@)
}

fn pack_one(bc: BcModule) -> (r: Artifact)
    ensures
        packs(r, seq![bc]),
{
    let ghost b0 = bc;
    let mut v: Vec<BcModule> = Vec::new();
    v.push(bc);
    assert(v@ =~= seq![b0]);
    Artifact::from_modules(v)
}

/// Whether a result is that of deploying an artifact.
pub open spec fn deployed<F>(
    funcs: Seq<(String, F)>,
    a: Artifact,
    ctx: TxContext,
    r: Result<Option<Launch>, Error>,
) -> bool {
    let found = mains(a.modules@, a.modules@.len());
    if found.len() == 0 {
        r matches Ok(None)
    } else if found.len() > 1 {
        r matches Err(e)
            && e@ == type_fault("artifact has more than one module with a `main` fn — ambiguous"@)
    } else {
        match run_place(
            funcs,
            a.modules@,
            a.modules@[found[0]].name@,
            "' is not present in the artifact"@,
        ) {
            Ok(k) => r matches Ok(Some(l)) && l.main == k && l.ctx == ctx,
            Err(x) => r matches Err(e) && e@ == x,
        }
    }
}

fn distinct_modules<'a>(bc: &'a BcModule, deps: &Vec<&'a BcModule>) -> (r: Vec<&'a BcModule>)
    ensures
        derefs(r@) == distinct_after(seq![*bc], derefs(deps@), 0),
{
    let mut r: Vec<&'a BcModule> = Vec::new();
    r.push(bc);
    assert(derefs(r@) =~= seq![*bc]);
    let mut k: usize = 0;
    while k < deps.len()
        invariant
            k <= deps@.len(),
            distinct_after(seq![*bc], derefs(deps@), 0) == distinct_after(derefs(r@), derefs(deps@), k as nat),
        decreases deps@.len() - k,
    {
        if find_module(&r, deps[k].name.as_str()).is_none() {
            let ghost before = derefs(r@);
            r.push(deps[k]);
            assert(derefs(r@) =~= before.push(*deps@[k as int]));
        }
        k = k + 1;
    }
    r
}

/// Every call into another module that a program makes, once it may run, names an
/// entry function of a module that is loaded with it.
pub proof fn linked_calls_resolve<F>(
    funcs: Seq<(String, F)>,
    ms: Seq<BcModule>,
    main_module: Seq<char>,
    absent: Seq<char>,
    i: int,
    j: int,
    k: int,
)
    requires
        run_place(funcs, ms, main_module, absent) is Ok,
        0 <= i < ms.len(),
        0 <= j < ms[i].functions@.len(),
        0 <= k < ms[i].functions@[j].code@.len(),
    ensures
        call_fault(ms, ms[i].functions@[j], ms[i].functions@[j].code@[k]) is None,
{
    lemma_no_link_fault(ms, 0, i);
    lemma_no_fns_fault(ms, ms[i].functions@, 0, j);
    lemma_no_code_fault(ms, ms[i].functions@[j], 0, k);
}

proof fn lemma_no_link_fault(ms: Seq<BcModule>, k: nat, i: int)
    requires
        link_fault(ms, k) is None,
        k <= i < ms.len(),
    ensures
        fns_fault(ms, ms[i].functions@, 0) is None,
    decreases i - k,
{
    if k < i {
        lemma_no_link_fault(ms, k + 1, i);
    }
}

proof fn lemma_no_fns_fault(ms: Seq<BcModule>, s: Seq<BcFn>, k: nat, i: int)
    requires
        fns_fault(ms, s, k) is None,
        k <= i < s.len(),
    ensures
        code_fault(ms, s[i], 0) is None,
    decreases i - k,
{
    if k < i {
        lemma_no_fns_fault(ms, s, k + 1, i);
    }
}

proof fn lemma_no_code_fault(ms: Seq<BcModule>, f: BcFn, k: nat, i: int)
    requires
        code_fault(ms, f, k) is None,
        k <= i < f.code@.len(),
    ensures
        call_fault(ms, f, f.code@[i]) is None,
    decreases i - k,
{
    if k < i {
        lemma_no_code_fault(ms, f, k + 1, i);
    }
}

} // verus!
