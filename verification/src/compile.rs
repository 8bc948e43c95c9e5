//! Compilation of a checked module to bytecode.

use vstd::prelude::*;
use vstd::utf8::encode_utf8;
use crate::ast::{
    EnumDecl, FnDef, InterfaceDecl, InterfaceMethod, Module, Param, StructField, Type, type_view,
};
use crate::bc::{BcFn, BcModule, EnumShape, Instr, PathSpec, StructShape};
use crate::builder::{
    Builder, BuilderView, Built, PathEntry, PathView, begun, bound, code_stays_in_its_frame, const_views,
    emitted, grown, lands_inside, path_views, pooled_once, registers_below, sound, type_err, type_error,
};
use crate::codegen::{ExternFn, ExternView, Unit, UnitView, body_code, compile_fn_body, extern_views};
use crate::defaults::{default_for, default_value};
use crate::error::{Error, ErrorView};
use crate::hashing::{state_key, state_root};
use crate::tables::name_set;
use crate::text::{concat3, text};
use crate::value::{Value, value_view};

verus! {

/// What a module is compiled from.
pub struct Source<'a> {
    pub module: &'a Module,
    pub module_name: &'a str,
    /// Interfaces that other modules declare.
    pub ifaces: &'a Vec<String>,
    /// Functions of other modules, and what their declarations promise.
    pub externs: &'a Vec<ExternFn>,
    /// For each loop over an array, in the order in which they are compiled: the
    /// maps whose cells it will read by the elements.
    pub plan: &'a Vec<Vec<String>>,
}

/// The model of a [`Source`].
pub struct SourceView {
    pub module: Module,
    pub module_name: Seq<char>,
    pub ifaces: Set<Seq<char>>,
    pub externs: Seq<ExternView>,
    pub plan: Seq<Vec<String>>,
}

impl<'a> View for Source<'a> {
    type V = SourceView;

    open spec fn view(&self) -> SourceView {
        SourceView {
            module: *self.module,
            module_name: self.module_name@,
            ifaces: name_set(self.ifaces@),
            externs: extern_views(self.externs@),
            plan: self.plan@,
        }
    }
}

/// What the `k`-th function of a module looks things up in.
pub open spec fn unit_of(s: SourceView, k: int) -> UnitView {
    UnitView {
        module: s.module,
        module_name: s.module_name,
        ifaces: s.ifaces,
        externs: s.externs,
        plan: s.plan,
        func: s.module.functions@[k],
    }
}

/// The state with the first `n` parameters in the first registers.
pub open spec fn params_bound(b: BuilderView, params: Seq<Param>, n: nat) -> BuilderView
    decreases n,
{
    if n == 0 || n > params.len() {
        b
    } else {
        bound(params_bound(b, params, (n - 1) as nat), params[n - 1].name@, (n - 1) as u16)
    }
}

/// The state with a return at the end.
pub open spec fn returned(b: BuilderView) -> BuilderView {
    if b.code.len() > 0 && (b.code.last() is Return || b.code.last() is ReturnUnit) {
        b
    } else {
        emitted(b, Instr::ReturnUnit)
    }
}

/// The compiled form of the `k`-th function, after others that have named `paths`
/// and compiled `seen` loops over arrays.
pub open spec fn fn_code(s: SourceView, k: int, paths: Seq<PathView>, seen: usize) -> Built {
    let f = s.module.functions@[k];
    if f.params@.len() > u16::MAX {
        Err(type_error("function '"@ + f.name@ + "' needs too many registers"@, f.span))
    } else {
        match body_code(
            unit_of(s, k),
            s.module.consts@.len(),
            f.body,
            params_bound(begun(f.params@.len() as u16, paths, seen), f.params@, f.params@.len()),
        ) {
            Err(x) => Err(x),
            Ok(b) => Ok(returned(b)),
        }
    }
}

/// The compiled forms of the functions from the `k`-th on, after `acc`.
pub open spec fn fns_code(s: SourceView, k: nat, acc: Seq<BuilderView>, paths: Seq<PathView>, seen: usize) -> Result<
    (Seq<BuilderView>, Seq<PathView>),
    ErrorView,
>
    decreases s.module.functions@.len() - k,
{
    if k >= s.module.functions@.len() {
        Ok((acc, paths))
    } else {
        match fn_code(s, k as int, paths, seen) {
            Err(x) => Err(x),
            Ok(b) => fns_code(s, k + 1, acc.push(b), b.paths, b.seen),
        }
    }
}

/// Whether a compiled function is that of a definition, with the given code.
pub open spec fn is_compiled(f: FnDef, b: BuilderView, r: BcFn) -> bool {
    &&& r.name@ == f.name@
    &&& r.n_params == f.params@.len()
    &&& r.n_regs == b.max
    &&& r.code@ == b.code
    &&& const_views(r.consts@) == b.consts
    &&& r.is_entry == f.is_entry
    &&& r.is_nore == f.is_nore
    &&& r.is_view == f.is_view
    &&& r.is_pure == f.is_pure
    &&& r.read_groups@.len() == 0
    &&& r.param_types@.len() == f.params@.len()
    &&& forall|i: int|
        0 <= i < f.params@.len() ==> type_view(#[trigger] r.param_types@[i]) == type_view(f.params@[i].ty)
    &&& type_view(r.return_type) == type_view(f.return_type)
}

/// Whether every register that a function names lies in its frame, no constant stands
/// in its pool twice, and jumps land in the code.
pub open spec fn is_framed(r: BcFn) -> bool {
    &&& forall|i: int| 0 <= i < r.code@.len() ==> registers_below(#[trigger] r.code@[i], r.n_regs)
    &&& pooled_once(const_views(r.consts@))
    &&& lands_inside(r.code@)
}

fn copy_param_types(params: &Vec<Param>) -> (r: Vec<Type>)
    ensures
        r@.len() == params@.len(),
        forall|i: int|
            0 <= i < params@.len() ==> type_view(#[trigger] r@[i]) == type_view(params@[i].ty),
{
    let mut r: Vec<Type> = Vec::new();
    let mut i: usize = 0;
    while i < params.len()
        invariant
            i <= params@.len(),
            r@.len() == i,
            forall|j: int| 0 <= j < i ==> type_view(#[trigger] r@[j]) == type_view(params@[j].ty),
        decreases params@.len() - i,
    {
        r.push(params[i].ty.copy());
        i = i + 1;
    }
    r
}

/// Compiles one function; `paths` and `seen` are what the functions before it left,
/// and the second result is what it leaves.
#[verifier::rlimit(30)]
fn compile_fn<'a>(s: &Source<'a>, k: usize, paths: Vec<PathEntry>, seen: usize) -> (r: Result<
    (BcFn, Vec<PathEntry>, usize),
    Error,
>)
    requires
        k < s.module.functions@.len(),
    ensures
        match fn_code(s@, k as int, path_views(paths@), seen) {
            Ok(b) => match r {
                Ok(t) => is_compiled(s.module.functions@[k as int], b, t.0) && is_framed(t.0) && path_views(
                    t.1@,
                ) == b.paths && t.2 == b.seen,
                Err(_) => false,
            },
            Err(x) => match r {
                Ok(_) => false,
                Err(e) => e@ == x,
            },
        },
{
    let f = &s.module.functions[k];
    if f.params.len() > 0xffff {
        return Err(
            type_err(concat3("function '", f.name.as_str(), "' needs too many registers"), f.span),
        );
    }
    let cx = Unit {
        module: s.module,
        module_name: s.module_name,
        ifaces: s.ifaces,
        externs: s.externs,
        plan: s.plan,
        func: f,
    };
    assert(cx@ == unit_of(s@, k as int));
    let n: u16 = f.params.len() as u16;
    let mut b = Builder::begin(n, paths, seen);
    let ghost start = b@;
    let mut i: usize = 0;
    while i < f.params.len()
        invariant
            i <= f.params@.len() == n,
            sound(b@),
            grown(start, b@),
            start.scopes.len() == 1,
            start.max == n,
            b@ == params_bound(start, f.params@, i as nat),
        decreases f.params@.len() - i,
    {
        b.bind(f.params[i].name.as_str(), i as u16);
        i = i + 1;
    }
    match compile_fn_body(&cx, s.module.consts.len(), &f.body, &mut b) {
        Ok(_) => {},
        Err(x) => return Err(x),
    }
    let m: usize = b.code.len();
    let done = if m > 0 {
        match b.code[m - 1] {
            Instr::Return { src: _ } => true,
            Instr::ReturnUnit => true,
            _ => false,
        }
    } else {
        false
    };
    if !done {
        b.emit(Instr::ReturnUnit);
    }
    proof {
        code_stays_in_its_frame(b@);
    }
    let r = BcFn {
        name: f.name.clone(),
        n_params: n,
        n_regs: b.max_reg,
        code: b.code,
        consts: b.consts,
        is_entry: f.is_entry,
        is_nore: f.is_nore,
        read_groups: Vec::new(),
        param_types: copy_param_types(&f.params),
        return_type: f.return_type.copy(),
        is_view: f.is_view,
        is_pure: f.is_pure,
    };
    Ok((r, b.paths, b.seen))
}

/// Whether a list of shapes is that of the structs and, after them, of the
/// capabilities of a module.
pub open spec fn are_shapes(m: Module, r: Seq<StructShape>) -> bool {
    &&& r.len() == m.structs@.len() + m.caps@.len()
    &&& forall|i: int|
        0 <= i < r.len() ==> is_shape(
            if i < m.structs@.len() {
                m.structs@[i].name@
            } else {
                m.caps@[i - m.structs@.len()].name@
            },
            if i < m.structs@.len() {
                m.structs@[i].fields@
            } else {
                m.caps@[i - m.structs@.len()].fields@
            },
            #[trigger] r[i],
        )
}

pub open spec fn is_shape(name: Seq<char>, fields: Seq<StructField>, r: StructShape) -> bool {
    &&& r.name@ == name
    &&& r.field_names@.len() == fields.len()
    &&& forall|i: int| 0 <= i < fields.len() ==> (#[trigger] r.field_names@[i])@ == fields[i].name@
}

fn make_shape(name: &String, fields: &Vec<StructField>) -> (r: StructShape)
    ensures
        is_shape(name@, fields@, r),
{
    let mut names: Vec<String> = Vec::new();
    let mut i: usize = 0;
    while i < fields.len()
        invariant
            i <= fields@.len(),
            names@.len() == i,
            forall|j: int| 0 <= j < i ==> (#[trigger] names@[j])@ == fields@[j].name@,
        decreases fields@.len() - i,
    {
        names.push(fields[i].name.clone());
        i = i + 1;
    }
    StructShape { name: name.clone(), field_names: names }
}

fn make_shapes(m: &Module) -> (r: Vec<StructShape>)
    ensures
        are_shapes(*m, r@),
{
    let mut r: Vec<StructShape> = Vec::new();
    let mut i: usize = 0;
    while i < m.structs.len()
        invariant
            i <= m.structs@.len(),
            r@.len() == i,
            forall|j: int|
                0 <= j < i ==> is_shape(m.structs@[j].name@, m.structs@[j].fields@, #[trigger] r@[j]),
        decreases m.structs@.len() - i,
    {
        r.push(make_shape(&m.structs[i].name, &m.structs[i].fields));
        i = i + 1;
    }
    let n: usize = i;
    let mut k: usize = 0;
    while k < m.caps.len()
        invariant
            k <= m.caps@.len(),
            n == m.structs@.len(),
            r@.len() == n + k,
            forall|j: int|
                0 <= j < n ==> is_shape(m.structs@[j].name@, m.structs@[j].fields@, #[trigger] r@[j]),
            forall|j: int|
                n <= j < n + k ==> is_shape(m.caps@[j - n].name@, m.caps@[j - n].fields@, #[trigger] r@[j]),
        decreases m.caps@.len() - k,
    {
        r.push(make_shape(&m.caps[k].name, &m.caps[k].fields));
        k = k + 1;
    }
    r
}

pub open spec fn is_enum_shape(d: EnumDecl, r: EnumShape) -> bool {
    &&& r.name@ == d.name@
    &&& r.variant_names@.len() == d.variants@.len()
    &&& forall|i: int|
        0 <= i < d.variants@.len() ==> (#[trigger] r.variant_names@[i])@ == d.variants@[i].name@
}

fn make_enum_shape(d: &EnumDecl) -> (r: EnumShape)
    ensures
        is_enum_shape(*d, r),
{
    let mut names: Vec<String> = Vec::new();
    let mut i: usize = 0;
    while i < d.variants.len()
        invariant
            i <= d.variants@.len(),
            names@.len() == i,
            forall|j: int| 0 <= j < i ==> (#[trigger] names@[j])@ == d.variants@[j].name@,
        decreases d.variants@.len() - i,
    {
        names.push(d.variants[i].name.clone());
        i = i + 1;
    }
    EnumShape { name: d.name.clone(), variant_names: names }
}

/// Whether a list of cell types is that of the paths that the functions name.
pub open spec fn are_paths(paths: Seq<PathView>, r: Seq<PathSpec>) -> bool {
    &&& r.len() == paths.len()
    &&& forall|i: int|
        0 <= i < r.len() ==> (#[trigger] r[i]).leaf_key == paths[i].key && type_view(r[i].leaf_type)
            == paths[i].ty && r[i].is_blob == paths[i].is_blob
}

fn take_specs(paths: &Vec<PathEntry>) -> (r: Vec<PathSpec>)
    ensures
        are_paths(path_views(paths@), r@),
{
    let mut r: Vec<PathSpec> = Vec::new();
    let mut i: usize = 0;
    while i < paths.len()
        invariant
            i <= paths@.len(),
            r@.len() == i,
            forall|j: int|
                0 <= j < i ==> (#[trigger] r@[j]).leaf_key == path_views(paths@)[j].key && type_view(
                    r@[j].leaf_type,
                ) == path_views(paths@)[j].ty && r@[j].is_blob == path_views(paths@)[j].is_blob,
        decreases paths@.len() - i,
    {
        let p = &paths[i].spec;
        r.push(PathSpec { leaf_key: p.leaf_key, leaf_type: p.leaf_type.copy(), is_blob: p.is_blob });
        i = i + 1;
    }
    r
}

pub open spec fn same_method(a: InterfaceMethod, b: InterfaceMethod) -> bool {
    &&& a.name@ == b.name@
    &&& a.is_view == b.is_view
    &&& a.is_pure == b.is_pure
    &&& a.span == b.span
    &&& type_view(a.return_type) == type_view(b.return_type)
    &&& a.params@.len() == b.params@.len()
    &&& forall|i: int|
        0 <= i < a.params@.len() ==> (#[trigger] a.params@[i]).name@ == b.params@[i].name@ && type_view(
            a.params@[i].ty,
        ) == type_view(b.params@[i].ty) && a.params@[i].span == b.params@[i].span
}

pub open spec fn same_interface(a: InterfaceDecl, b: InterfaceDecl) -> bool {
    &&& a.name@ == b.name@
    &&& a.span == b.span
    &&& a.methods@.len() == b.methods@.len()
    &&& forall|i: int| 0 <= i < a.methods@.len() ==> same_method(#[trigger] a.methods@[i], b.methods@[i])
}

fn copy_method(a: &InterfaceMethod) -> (r: InterfaceMethod)
    ensures
        same_method(r, *a),
{
    let mut params: Vec<Param> = Vec::new();
    let mut i: usize = 0;
    while i < a.params.len()
        invariant
            i <= a.params@.len(),
            params@.len() == i,
            forall|j: int|
                0 <= j < i ==> (#[trigger] params@[j]).name@ == a.params@[j].name@ && type_view(params@[j].ty)
                    == type_view(a.params@[j].ty) && params@[j].span == a.params@[j].span,
        decreases a.params@.len() - i,
    {
        let p = &a.params[i];
        params.push(Param { name: p.name.clone(), ty: p.ty.copy(), span: p.span });
        i = i + 1;
    }
    InterfaceMethod {
        name: a.name.clone(),
        params,
        return_type: a.return_type.copy(),
        is_view: a.is_view,
        is_pure: a.is_pure,
        span: a.span,
    }
}

fn copy_interface(a: &InterfaceDecl) -> (r: InterfaceDecl)
    ensures
        same_interface(r, *a),
{
    let mut methods: Vec<InterfaceMethod> = Vec::new();
    let mut i: usize = 0;
    while i < a.methods.len()
        invariant
            i <= a.methods@.len(),
            methods@.len() == i,
            forall|j: int| 0 <= j < i ==> same_method(#[trigger] methods@[j], a.methods@[j]),
        decreases a.methods@.len() - i,
    {
        methods.push(copy_method(&a.methods[i]));
        i = i + 1;
    }
    InterfaceDecl { name: a.name.clone(), methods, span: a.span }
}

pub open spec fn byte_lists(s: Seq<Vec<u8>>) -> Seq<Seq<u8>> {
    Seq::new(s.len(), |i: int| s[i]@)
}

fn copy_byte_lists(v: &Vec<Vec<u8>>) -> (r: Vec<Vec<u8>>)
    ensures
        byte_lists(r@) == byte_lists(v@),
{
    let mut r: Vec<Vec<u8>> = Vec::new();
    let mut i: usize = 0;
    while i < v.len()
        invariant
            i <= v@.len(),
            r@.len() == i,
            forall|j: int| 0 <= j < i ==> (#[trigger] r@[j])@ == v@[j]@,
        decreases v@.len() - i,
    {
        let mut b: Vec<u8> = Vec::new();
        crate::bytes::push_all(&mut b, v[i].as_slice());
        assert(b@ =~= v@[i as int]@);
        r.push(b);
        i = i + 1;
    }
    assert(byte_lists(r@) =~= byte_lists(v@));
    r
}

/// Whether a compiled module is that of a source, with the given function code and
/// paths, and the given stored defaults of its states.
pub open spec fn is_module(
    s: SourceView,
    code: Seq<BuilderView>,
    paths: Seq<PathView>,
    defaults: Seq<Seq<u8>>,
    r: BcModule,
) -> bool {
    let m = s.module;
    &&& r.name@ == s.module_name
    &&& r.imports@.len() == m.imports@.len()
    &&& forall|i: int| 0 <= i < m.imports@.len() ==> (#[trigger] r.imports@[i])@ == m.imports@[i].name@
    &&& r.state_roots@.len() == m.states@.len()
    &&& forall|i: int|
        0 <= i < m.states@.len() ==> #[trigger] r.state_roots@[i] == state_key(
            encode_utf8(s.module_name),
            encode_utf8(m.states@[i].name@),
        )
    &&& r.state_types@.len() == m.states@.len()
    &&& forall|i: int|
        0 <= i < m.states@.len() ==> type_view(#[trigger] r.state_types@[i]) == type_view(m.states@[i].ty)
    &&& r.state_names@.len() == m.states@.len()
    &&& forall|i: int| 0 <= i < m.states@.len() ==> (#[trigger] r.state_names@[i])@ == m.states@[i].name@
    &&& byte_lists(r.state_defaults@) == defaults
    &&& are_shapes(m, r.struct_shapes@)
    &&& r.functions@.len() == code.len() == m.functions@.len()
    &&& forall|i: int|
        0 <= i < code.len() ==> is_compiled(m.functions@[i], code[i], #[trigger] r.functions@[i])
    &&& are_paths(paths, r.path_specs@)
    &&& r.enum_shapes@.len() == m.enums@.len()
    &&& forall|i: int| 0 <= i < m.enums@.len() ==> is_enum_shape(m.enums@[i], #[trigger] r.enum_shapes@[i])
    &&& r.interfaces@.len() == m.interfaces@.len()
    &&& forall|i: int|
        0 <= i < m.interfaces@.len() ==> same_interface(#[trigger] r.interfaces@[i], m.interfaces@[i])
}

#[verifier::rlimit(30)]
fn compile_fns<'a>(s: &Source<'a>) -> (r: Result<(Vec<BcFn>, Vec<PathEntry>), Error>)
    ensures
        match fns_code(s@, 0, seq![], seq![], 0) {
            Ok((code, paths)) => match r {
                Ok(t) => t.0@.len() == code.len() == s.module.functions@.len() && path_views(t.1@) == paths
                    && forall|i: int|
                    0 <= i < code.len() ==> is_compiled(
                        s.module.functions@[i],
                        code[i],
                        #[trigger] t.0@[i],
                    ) && is_framed(t.0@[i]),
                Err(_) => false,
            },
            Err(x) => match r {
                Ok(_) => false,
                Err(e) => e@ == x,
            },
        },
{
    let mut out: Vec<BcFn> = Vec::new();
    let mut paths: Vec<PathEntry> = Vec::new();
    let mut seen: usize = 0;
    let ghost mut acc: Seq<BuilderView> = seq![];
    assert(path_views(paths@) =~= seq![]);
    let mut k: usize = 0;
    while k < s.module.functions.len()
        invariant
            k <= s.module.functions@.len(),
            out@.len() == acc.len() == k,
            forall|i: int|
                0 <= i < k ==> is_compiled(s.module.functions@[i], acc[i], #[trigger] out@[i]) && is_framed(
                    out@[i],
                ),
            fns_code(s@, 0, seq![], seq![], 0) == fns_code(
                s@,
                k as nat,
                acc,
                path_views(paths@),
                seen,
            ),
        decreases s.module.functions@.len() - k,
    {
        let ghost b = fn_code(s@, k as int, path_views(paths@), seen);
        let (f, next_paths, next_seen) = match compile_fn(s, k, paths, seen) {
            Ok(t) => t,
            Err(x) => return Err(x),
        };
        out.push(f);
        paths = next_paths;
        seen = next_seen;
        proof {
            acc = acc.push(b->Ok_0);
        }
        k = k + 1;
    }
    Ok((out, paths))
}

/// Compiles a module under a name. `defaults` are the stored forms of the initial
/// values of its states; see [`state_default_values`].
#[verifier::rlimit(30)]
pub fn compile_named_with_extras(
    module: &Module,
    module_name: &str,
    iface_externals: &Vec<String>,
    extern_fn_flags: &Vec<ExternFn>,
    plan: &Vec<Vec<String>>,
    defaults: &Vec<Vec<u8>>,
) -> (r: Result<BcModule, Error>)
    ensures
        compiles_source(
            (SourceView {
                module: *module,
                module_name: module_name@,
                ifaces: name_set(iface_externals@),
                externs: extern_views(extern_fn_flags@),
                plan: plan@,
            }),
            byte_lists(defaults@),
            r,
        ),
{
    let s = Source {
        module,
        module_name,
        ifaces: iface_externals,
        externs: extern_fn_flags,
        plan,
    };
    let (functions, paths) = match compile_fns(&s) {
        Ok(t) => t,
        Err(x) => return Err(x),
    };
    let mut imports: Vec<String> = Vec::new();
    let mut i: usize = 0;
    while i < module.imports.len()
        invariant
            i <= module.imports@.len(),
            imports@.len() == i,
            forall|j: int| 0 <= j < i ==> (#[trigger] imports@[j])@ == module.imports@[j].name@,
        decreases module.imports@.len() - i,
    {
        imports.push(module.imports[i].name.clone());
        i = i + 1;
    }
    let mut state_roots: Vec<u128> = Vec::new();
    let mut state_types: Vec<Type> = Vec::new();
    let mut state_names: Vec<String> = Vec::new();
    let mut k: usize = 0;
    while k < module.states.len()
        invariant
            k <= module.states@.len(),
            state_roots@.len() == k,
            state_types@.len() == k,
            state_names@.len() == k,
            forall|j: int|
                0 <= j < k ==> #[trigger] state_roots@[j] == state_key(
                    encode_utf8(module_name@),
                    encode_utf8(module.states@[j].name@),
                ),
            forall|j: int|
                0 <= j < k ==> type_view(#[trigger] state_types@[j]) == type_view(module.states@[j].ty),
            forall|j: int| 0 <= j < k ==> (#[trigger] state_names@[j])@ == module.states@[j].name@,
        decreases module.states@.len() - k,
    {
        let st = &module.states[k];
        state_roots.push(state_root(module_name, st.name.as_str()));
        state_types.push(st.ty.copy());
        state_names.push(st.name.clone());
        k = k + 1;
    }
    let mut enum_shapes: Vec<EnumShape> = Vec::new();
    let mut e: usize = 0;
    while e < module.enums.len()
        invariant
            e <= module.enums@.len(),
            enum_shapes@.len() == e,
            forall|j: int| 0 <= j < e ==> is_enum_shape(module.enums@[j], #[trigger] enum_shapes@[j]),
        decreases module.enums@.len() - e,
    {
        enum_shapes.push(make_enum_shape(&module.enums[e]));
        e = e + 1;
    }
    let mut interfaces: Vec<InterfaceDecl> = Vec::new();
    let mut n: usize = 0;
    while n < module.interfaces.len()
        invariant
            n <= module.interfaces@.len(),
            interfaces@.len() == n,
            forall|j: int|
                0 <= j < n ==> same_interface(#[trigger] interfaces@[j], module.interfaces@[j]),
        decreases module.interfaces@.len() - n,
    {
        interfaces.push(copy_interface(&module.interfaces[n]));
        n = n + 1;
    }
    Ok(
        BcModule {
            name: text(module_name),
            imports,
            state_roots,
            state_types,
            state_defaults: copy_byte_lists(defaults),
            state_names,
            struct_shapes: make_shapes(module),
            functions,
            path_specs: take_specs(&paths),
            enum_shapes,
            interfaces,
        },
    )
}

/// Compiles a module that knows these interfaces of other modules.
pub fn compile_named_with_iface_externals(
    module: &Module,
    module_name: &str,
    iface_externals: &Vec<String>,
    plan: &Vec<Vec<String>>,
    defaults: &Vec<Vec<u8>>,
) -> (r: Result<BcModule, Error>)
    ensures
        compiles(module, module_name@, iface_externals@, plan@, byte_lists(defaults@), r),
{
    let none: Vec<ExternFn> = Vec::new();
    let r = compile_named_with_extras(module, module_name, iface_externals, &none, plan, defaults);
    assert(extern_views(none@) =~= seq![]);
    r
}

/// Whether a result is that of compiling a module without functions of other
/// modules.
pub open spec fn compiles(
    module: &Module,
    name: Seq<char>,
    ifaces: Seq<String>,
    plan: Seq<Vec<String>>,
    defaults: Seq<Seq<u8>>,
    r: Result<BcModule, Error>,
) -> bool {
    compiles_source(
        SourceView { module: *module, module_name: name, ifaces: name_set(ifaces), externs: seq![], plan },
        defaults,
        r,
    )
}

pub open spec fn compiles_source(s: SourceView, defaults: Seq<Seq<u8>>, r: Result<BcModule, Error>) -> bool {
    match fns_code(s, 0, seq![], seq![], 0) {
        Ok((code, paths)) => match r {
            Ok(m) => is_module(s, code, paths, defaults, m) && forall|i: int|
                0 <= i < m.functions@.len() ==> is_framed(#[trigger] m.functions@[i]),
            Err(_) => false,
        },
        Err(x) => match r {
            Ok(_) => false,
            Err(e) => e@ == x,
        },
    }
}

/// Compiles a module under a name.
pub fn compile_named(
    module: &Module,
    module_name: &str,
    plan: &Vec<Vec<String>>,
    defaults: &Vec<Vec<u8>>,
) -> (r: Result<
    BcModule,
    Error,
>)
    ensures
        compiles(module, module_name@, seq![], plan@, byte_lists(defaults@), r),
{
    let none: Vec<String> = Vec::new();
    assert(none@ =~= seq![]);
    compile_named_with_iface_externals(module, module_name, &none, plan, defaults)
}

/// Compiles the main module.
pub fn compile(module: &Module, plan: &Vec<Vec<String>>, defaults: &Vec<Vec<u8>>) -> (r: Result<BcModule, Error>)
    ensures
        compiles(module, "main"@, seq![], plan@, byte_lists(defaults@), r),
{
    compile_named(module, "main", plan, defaults)
}

/// The initial values of the states of a module, one for each.
pub fn state_default_values(module: &Module) -> (r: Vec<Value>)
    ensures
        r@.len() == module.states@.len(),
        forall|i: int|
            0 <= i < r@.len() ==> value_view(#[trigger] r@[i]) == default_value(module.states@[i].ty),
{
    let mut r: Vec<Value> = Vec::new();
    let mut i: usize = 0;
    while i < module.states.len()
        invariant
            i <= module.states@.len(),
            r@.len() == i,
            forall|j: int|
                0 <= j < i ==> value_view(#[trigger] r@[j]) == default_value(module.states@[j].ty),
        decreases module.states@.len() - i,
    {
        r.push(default_for(&module.states[i].ty));
        i = i + 1;
    }
    r
}

} // verus!
