//! Building is repeatable: the same modules give the same artifact.
//!
//! The contracts of the compiler and of the engine say what a result is, up to the
//! model that its bytes are written from. What is shown here is that they leave no
//! choice: two results for one source, one set of modules or one transaction have the
//! same model, and so the same bytes and the same hash, or the same error.

use vstd::prelude::*;
use crate::artifact::{artifact_bytes, artifact_id, Artifact};
use crate::ast::{type_view, InterfaceDecl};
use crate::bc::{fn_names, last_named, lemma_last_named, BcFn, BcModule, Instr};
use crate::builder::{const_views, BuilderView, PathView};
use crate::codec::{models, Codec};
use crate::codegen::ExternView;
use crate::compile::{
    are_paths, are_shapes, byte_lists, compiles_source, is_compiled, is_enum_shape, is_module, is_shape,
    same_interface, same_method, SourceView,
};
use crate::effects::{classifies, least_closed_is_unique, CtxView, EffectClass, EffectTable};
use crate::engine::{
    all_built, all_decl_entries, broken_from, builds, builds_alone, builds_tx, call_fault, classes_alone, code_fault,
    compiled, dep_entries, distinct_after, entry_classes, fns_fault, front_error, iface_names, import_error, is_built,
    is_optimized, link_fault, misnamed_from, misuse_from, module_at, module_names, one_built, own_name, packs,
    set_built, set_compiled, single_built, stops_at, text_at, too_long_from, tx_built, tx_compiled, tx_error,
    undeclared_from, TypedModule,
};
use crate::error::Error;
use crate::optimize::{groups_view, optimized_fn, silent_calls};
use crate::tables::{place, Named};

verus! {

/// Whether two results are of one model, or the same error.
pub open spec fn same_result(a: Result<BcModule, Error>, b: Result<BcModule, Error>) -> bool {
    match (a, b) {
        (Ok(x), Ok(y)) => x.model() == y.model(),
        (Err(x), Err(y)) => x@ == y@,
        _ => false,
    }
}

/// Whether a list of items of one type has the model of another.
proof fn lemma_same_models<T: Codec>(a: Seq<T>, b: Seq<T>)
    requires
        a.len() == b.len(),
        forall|i: int| 0 <= i < a.len() ==> (#[trigger] a[i]).model() == b[i].model(),
    ensures
        models(a) == models(b),
{
    assert(models(a) =~= models(b));
}

proof fn lemma_same_interface(a: InterfaceDecl, b: InterfaceDecl, m: InterfaceDecl)
    requires
        same_interface(a, m),
        same_interface(b, m),
    ensures
        a.model() == b.model(),
{
    assert forall|i: int| 0 <= i < a.methods@.len() implies (#[trigger] a.methods@[i]).model()
        == b.methods@[i].model() by {
        let x = a.methods@[i];
        let y = b.methods@[i];
        assert(same_method(x, m.methods@[i]));
        assert(same_method(y, m.methods@[i]));
        assert forall|j: int| 0 <= j < x.params@.len() implies (#[trigger] x.params@[j]).model()
            == y.params@[j].model() by {
            assert(y.params@[j].name@ == m.methods@[i].params@[j].name@);
        }
        lemma_same_models(x.params@, y.params@);
    }
    lemma_same_models(a.methods@, b.methods@);
}

proof fn lemma_same_fn(f: crate::ast::FnDef, code: BuilderView, a: BcFn, b: BcFn)
    requires
        is_compiled(f, code, a),
        is_compiled(f, code, b),
    ensures
        a.model() == b.model(),
{
    assert forall|i: int| 0 <= i < a.param_types@.len() implies (#[trigger] a.param_types@[i]).model()
        == b.param_types@[i].model() by {
        assert(type_view(b.param_types@[i]) == type_view(f.params@[i].ty));
    }
    lemma_same_models(a.param_types@, b.param_types@);
    assert(models(a.consts@) =~= const_views(a.consts@));
    assert(models(b.consts@) =~= const_views(b.consts@));
    lemma_same_models(a.read_groups@, b.read_groups@);
}

#[verifier::spinoff_prover]
#[verifier::rlimit(60)]
proof fn lemma_same_module(
    s: SourceView,
    code: Seq<BuilderView>,
    paths: Seq<PathView>,
    defaults: Seq<Seq<u8>>,
    a: BcModule,
    b: BcModule,
)
    requires
        is_module(s, code, paths, defaults, a),
        is_module(s, code, paths, defaults, b),
    ensures
        a.model() == b.model(),
        a.functions@.len() == b.functions@.len(),
        forall|k: int| 0 <= k < a.functions@.len() ==> (#[trigger] a.functions@[k]).model() == b.functions@[k].model(),
{
    let m = s.module;
    assert forall|i: int| 0 <= i < a.imports@.len() implies (#[trigger] a.imports@[i]).model()
        == b.imports@[i].model() by {
        assert(b.imports@[i]@ == m.imports@[i].name@);
    }
    lemma_same_models(a.imports@, b.imports@);
    assert forall|i: int| 0 <= i < a.state_roots@.len() implies (#[trigger] a.state_roots@[i]).model()
        == b.state_roots@[i].model() by {
        assert(b.state_roots@[i] == a.state_roots@[i]);
    }
    lemma_same_models(a.state_roots@, b.state_roots@);
    assert forall|i: int| 0 <= i < a.state_types@.len() implies (#[trigger] a.state_types@[i]).model()
        == b.state_types@[i].model() by {
        assert(type_view(b.state_types@[i]) == type_view(m.states@[i].ty));
    }
    lemma_same_models(a.state_types@, b.state_types@);
    assert forall|i: int| 0 <= i < a.state_names@.len() implies (#[trigger] a.state_names@[i]).model()
        == b.state_names@[i].model() by {
        assert(b.state_names@[i]@ == m.states@[i].name@);
    }
    lemma_same_models(a.state_names@, b.state_names@);
    lemma_same_defaults(a.state_defaults@, b.state_defaults@);
    lemma_same_shapes(m, a, b);
    assert forall|k: int| 0 <= k < a.functions@.len() implies (#[trigger] a.functions@[k]).model()
        == b.functions@[k].model() by {
        assert(is_compiled(m.functions@[k], code[k], b.functions@[k]));
        lemma_same_fn(m.functions@[k], code[k], a.functions@[k], b.functions@[k]);
    }
    lemma_same_models(a.functions@, b.functions@);
    assert forall|i: int| 0 <= i < a.path_specs@.len() implies (#[trigger] a.path_specs@[i]).model()
        == b.path_specs@[i].model() by {
        assert(b.path_specs@[i].leaf_key == paths[i].key);
    }
    lemma_same_models(a.path_specs@, b.path_specs@);
    assert forall|i: int| 0 <= i < a.interfaces@.len() implies (#[trigger] a.interfaces@[i]).model()
        == b.interfaces@[i].model() by {
        assert(same_interface(b.interfaces@[i], m.interfaces@[i]));
        lemma_same_interface(a.interfaces@[i], b.interfaces@[i], m.interfaces@[i]);
    }
    lemma_same_models(a.interfaces@, b.interfaces@);
}

proof fn lemma_same_defaults(a: Seq<Vec<u8>>, b: Seq<Vec<u8>>)
    requires
        byte_lists(a) == byte_lists(b),
    ensures
        models(a) == models(b),
{
    assert(byte_lists(a).len() == a.len() && byte_lists(b).len() == b.len());
    assert forall|i: int| 0 <= i < a.len() implies (#[trigger] a[i]).model() == b[i].model() by {
        assert(byte_lists(a)[i] == byte_lists(b)[i]);
        assert(a[i]@ == b[i]@);
    }
    lemma_same_models(a, b);
}

proof fn lemma_same_shapes(m: crate::ast::Module, a: BcModule, b: BcModule)
    requires
        are_shapes(m, a.struct_shapes@),
        are_shapes(m, b.struct_shapes@),
        a.enum_shapes@.len() == b.enum_shapes@.len() == m.enums@.len(),
        forall|i: int| 0 <= i < m.enums@.len() ==> is_enum_shape(m.enums@[i], #[trigger] a.enum_shapes@[i]),
        forall|i: int| 0 <= i < m.enums@.len() ==> is_enum_shape(m.enums@[i], #[trigger] b.enum_shapes@[i]),
    ensures
        models(a.struct_shapes@) == models(b.struct_shapes@),
        models(a.enum_shapes@) == models(b.enum_shapes@),
{
    assert forall|i: int| 0 <= i < a.struct_shapes@.len() implies (#[trigger] a.struct_shapes@[i]).model()
        == b.struct_shapes@[i].model() by {
        let x = a.struct_shapes@[i];
        let y = b.struct_shapes@[i];
        assert(x.name@ == y.name@);
        assert(x.field_names@.len() == y.field_names@.len());
        assert forall|j: int| 0 <= j < x.field_names@.len() implies (#[trigger] x.field_names@[j]).model()
            == y.field_names@[j].model() by {
            assert(x.field_names@[j]@ == y.field_names@[j]@);
        }
        lemma_same_models(x.field_names@, y.field_names@);
    }
    lemma_same_models(a.struct_shapes@, b.struct_shapes@);
    assert forall|i: int| 0 <= i < a.enum_shapes@.len() implies (#[trigger] a.enum_shapes@[i]).model()
        == b.enum_shapes@[i].model() by {
        let x = a.enum_shapes@[i];
        let y = b.enum_shapes@[i];
        assert(is_enum_shape(m.enums@[i], y));
        assert forall|j: int| 0 <= j < x.variant_names@.len() implies (#[trigger] x.variant_names@[j]).model()
            == y.variant_names@[j].model() by {
            assert(y.variant_names@[j]@ == m.enums@[i].variants@[j].name@);
        }
        lemma_same_models(x.variant_names@, y.variant_names@);
    }
    lemma_same_models(a.enum_shapes@, b.enum_shapes@);
}

/// Two results of compiling one source are the same program or the same error.
pub proof fn compiling_is_repeatable(
    s: SourceView,
    defaults: Seq<Seq<u8>>,
    a: Result<BcModule, Error>,
    b: Result<BcModule, Error>,
)
    requires
        compiles_source(s, defaults, a),
        compiles_source(s, defaults, b),
    ensures
        same_result(a, b),
{
    match (a, b) {
        (Ok(x), Ok(y)) => {
            let (code, paths) = crate::compile::fns_code(s, 0, seq![], seq![], 0)->Ok_0;
            lemma_same_module(s, code, paths, defaults, x, y);
        },
        _ => {},
    }
}

proof fn lemma_place_same<T: Named, U: Named>(s: Seq<T>, t: Seq<U>, name: Seq<char>)
    requires
        s.len() == t.len(),
        forall|i: int| 0 <= i < s.len() ==> (#[trigger] s[i]).nm() == t[i].nm(),
    ensures
        place(s, name) == place(t, name),
        place(s, name) matches Some(k) ==> 0 <= k < s.len(),
    decreases s.len(),
{
    if s.len() > 0 {
        assert(s[s.len() - 1].nm() == t[s.len() - 1].nm());
        assert forall|i: int| 0 <= i < s.len() - 1 implies (#[trigger] s.drop_last()[i]).nm()
            == t.drop_last()[i].nm() by {
            assert(s[i].nm() == t[i].nm());
        }
        lemma_place_same(s.drop_last(), t.drop_last(), name);
    }
}

/// Two tables that classify one module agree on every name.
pub proof fn classifying_is_repeatable(cx: CtxView, t: EffectTable, u: EffectTable, name: Seq<char>)
    requires
        classifies(cx, t),
        classifies(cx, u),
    ensures
        t.class(name) == u.class(name),
{
    let a = Seq::new(t.entries@.len(), |k: int| t.entries@[k].1);
    let b = Seq::new(u.entries@.len(), |k: int| u.entries@[k].1);
    least_closed_is_unique(cx, a, b);
    assert forall|i: int| 0 <= i < t.entries@.len() implies (#[trigger] t.entries@[i]).nm() == u.entries@[i].nm() by {
        assert(u.entries@[i].0@ == cx.module.functions@[i].name@);
    }
    lemma_place_same(t.entries@, u.entries@, name);
    match place(t.entries@, name) {
        Some(k) => assert(a[k] == b[k]),
        None => {},
    }
}

proof fn lemma_broken_same(m: crate::ast::Module, t: EffectTable, u: EffectTable, k: nat)
    requires
        forall|name: Seq<char>| #[trigger] t.class(name) == u.class(name),
    ensures
        broken_from(m, t, k) == broken_from(m, u, k),
    decreases m.functions@.len() - k,
{
    if k < m.functions@.len() {
        let f = m.functions@[k as int];
        assert(t.class(f.name@) == u.class(f.name@));
        lemma_broken_same(m, t, u, k + 1);
    }
}

proof fn lemma_too_long_same(a: Seq<BcFn>, b: Seq<BcFn>, k: nat)
    requires
        a.len() == b.len(),
        forall|i: int| 0 <= i < a.len() ==> (#[trigger] a[i]).code@.len() == b[i].code@.len(),
    ensures
        too_long_from(a, k) == too_long_from(b, k),
        too_long_from(a, k) matches Some(i) ==> 0 <= i < a.len(),
    decreases a.len() - k,
{
    if k < a.len() {
        assert(a[k as int].code@.len() == b[k as int].code@.len());
        lemma_too_long_same(a, b, k + 1);
    }
}

/// What the model of a function says of it.
proof fn lemma_model_parts(a: BcFn, b: BcFn)
    requires
        a.model() == b.model(),
    ensures
        a.name@ == b.name@,
        a.code@ == b.code@,
        a.read_groups@.len() == b.read_groups@.len(),
        groups_view(a.read_groups@) == groups_view(b.read_groups@),
{
    let x = a.code.model();
    let y = b.code.model();
    assert(x == y && x.len() == a.code@.len() && y.len() == b.code@.len());
    assert forall|i: int| 0 <= i < a.code@.len() implies a.code@[i] == b.code@[i] by {
        assert(x[i] == y[i]);
    }
    assert(a.code@ =~= b.code@);
    let p = a.read_groups.model();
    let q = b.read_groups.model();
    assert(p == q && p.len() == a.read_groups@.len() && q.len() == b.read_groups@.len());
    assert forall|i: int| 0 <= i < a.read_groups@.len() implies a.read_groups@[i]@ == b.read_groups@[i]@ by {
        assert(p[i] == q[i]);
        assert(models(a.read_groups@[i]@) =~= a.read_groups@[i]@);
        assert(models(b.read_groups@[i]@) =~= b.read_groups@[i]@);
    }
    assert(groups_view(a.read_groups@) =~= groups_view(b.read_groups@));
}

/// Optimizing functions of one model gives functions of one model.
proof fn lemma_optimized_same(f: BcFn, g: BcFn, a: BcFn, b: BcFn, silent: Seq<bool>)
    requires
        f.model() == g.model(),
        optimized_fn(f, a, silent),
        optimized_fn(g, b, silent),
    ensures
        a.model() == b.model(),
{
    lemma_model_parts(f, g);
    assert(a.code@ == b.code@);
    let x = groups_view(a.read_groups@);
    let y = groups_view(b.read_groups@);
    assert(x == y && x.len() == a.read_groups@.len() && y.len() == b.read_groups@.len());
    assert forall|i: int| 0 <= i < a.read_groups@.len() implies (#[trigger] a.read_groups@[i]).model()
        == b.read_groups@[i].model() by {
        assert(x[i] == y[i]);
    }
    lemma_same_models(a.read_groups@, b.read_groups@);
}

/// The model of a module is made of those of its functions and of the rest.
proof fn lemma_functions_replaced(f: BcModule, g: BcModule, a: BcModule, b: BcModule)
    requires
        f.model() == g.model(),
        a == (BcModule { functions: a.functions, ..f }),
        b == (BcModule { functions: b.functions, ..g }),
        models(a.functions@) == models(b.functions@),
    ensures
        a.model() == b.model(),
{
}

/// Two results of building one source are the same program or the same error.
#[verifier::rlimit(60)]
pub proof fn building_is_repeatable(
    s: SourceView,
    externals: Map<Seq<char>, EffectClass>,
    defaults: Seq<Seq<u8>>,
    a: Result<BcModule, Error>,
    b: Result<BcModule, Error>,
)
    requires
        builds(s, externals, defaults, a),
        builds(s, externals, defaults, b),
    ensures
        same_result(a, b),
{
    let cx = CtxView { module: s.module, externals, ifaces: s.ifaces };
    let (c, t) = choose|c: Result<BcModule, Error>, t: EffectTable| #[trigger]
        compiles_source(s, defaults, c) && #[trigger] classifies(cx, t) && is_built(s.module, c, t, a);
    let (d, u) = choose|d: Result<BcModule, Error>, u: EffectTable| #[trigger]
        compiles_source(s, defaults, d) && #[trigger] classifies(cx, u) && is_built(s.module, d, u, b);
    compiling_is_repeatable(s, defaults, c, d);
    assert forall|name: Seq<char>| #[trigger] t.class(name) == u.class(name) by {
        classifying_is_repeatable(cx, t, u, name);
    }
    lemma_broken_same(s.module, t, u, 0);
    match (c, d) {
        (Ok(x), Ok(y)) => {
            let (code, paths) = crate::compile::fns_code(s, 0, seq![], seq![], 0)->Ok_0;
            lemma_same_module(s, code, paths, defaults, x, y);
            assert forall|k: int| 0 <= k < x.functions@.len() implies (#[trigger] x.functions@[k]).code@.len()
                == y.functions@[k].code@.len() && x.functions@[k].nm() == y.functions@[k].nm() by {
                lemma_model_parts(x.functions@[k], y.functions@[k]);
            }
            lemma_too_long_same(x.functions@, y.functions@, 0);
            match too_long_from(x.functions@, 0) {
                Some(k) => {
                    assert(x.functions@[k].nm() == y.functions@[k].nm());
                },
                None => {},
            }
            match (a, b) {
                (Ok(o), Ok(p)) => {
                    let v = silent_calls(x.functions@, t);
                    let w = silent_calls(y.functions@, u);
                    assert forall|k: int| 0 <= k < x.functions@.len() implies v[k] == w[k] by {
                        let name = x.functions@[k].name@;
                        assert(x.functions@[k].nm() == y.functions@[k].nm());
                        lemma_place_same(x.functions@, y.functions@, name);
                        assert(t.class(name) == u.class(name));
                    }
                    assert(v =~= w);
                    assert(is_optimized(x, t, o) && is_optimized(y, u, p));
                    assert forall|k: int| 0 <= k < o.functions@.len() implies (#[trigger] o.functions@[k]).model()
                        == p.functions@[k].model() by {
                        assert(x.functions@[k].model() == y.functions@[k].model());
                        assert(optimized_fn(x.functions@[k], o.functions@[k], v));
                        assert(optimized_fn(y.functions@[k], p.functions@[k], w));
                        lemma_optimized_same(
                            x.functions@[k],
                            y.functions@[k],
                            o.functions@[k],
                            p.functions@[k],
                            v,
                        );
                    }
                    lemma_same_models(o.functions@, p.functions@);
                    lemma_functions_replaced(x, y, o, p);
                },
                _ => {},
            }
        },
        _ => {},
    }
}

/// Programs of one model have one artifact: the same bytes and the same hash.
pub proof fn same_programs_have_one_artifact(a: BcModule, b: BcModule)
    requires
        a.model() == b.model(),
    ensures
        artifact_bytes(models(seq![a])) == artifact_bytes(models(seq![b])),
        artifact_id(artifact_bytes(models(seq![a]))) == artifact_id(artifact_bytes(models(seq![b]))),
{
    lemma_same_models(seq![a], seq![b]);
}

/// What the model of a function says of what links look at.
proof fn lemma_link_parts(a: BcFn, b: BcFn)
    requires
        a.model() == b.model(),
    ensures
        a.is_entry == b.is_entry,
        forall|i: u16| #[trigger] text_at(a.consts@, i) == text_at(b.consts@, i),
{
    let x = a.consts.model();
    let y = b.consts.model();
    assert(x == y && x.len() == a.consts@.len() && y.len() == b.consts@.len());
    assert forall|i: u16| #[trigger] text_at(a.consts@, i) == text_at(b.consts@, i) by {
        if i < a.consts@.len() {
            assert(x[i as int] == a.consts@[i as int]@);
            assert(y[i as int] == b.consts@[i as int]@);
        }
    }
}

/// What the model of a module says of its name and its functions.
proof fn lemma_module_parts(a: BcModule, b: BcModule)
    requires
        a.model() == b.model(),
    ensures
        a.name@ == b.name@,
        a.functions@.len() == b.functions@.len(),
        fn_names(a) == fn_names(b),
        forall|k: int| 0 <= k < a.functions@.len() ==> (#[trigger] a.functions@[k]).model() == b.functions@[k].model(),
{
    let x = a.functions.model();
    let y = b.functions.model();
    assert(x == y && x.len() == a.functions@.len() && y.len() == b.functions@.len());
    assert forall|k: int| 0 <= k < a.functions@.len() implies (#[trigger] a.functions@[k]).model()
        == b.functions@[k].model() by {
        assert(x[k] == a.functions@[k].model());
        assert(y[k] == b.functions@[k].model());
    }
    assert forall|k: int| 0 <= k < a.functions@.len() implies fn_names(a)[k] == fn_names(b)[k] by {
        assert(a.functions@[k].model() == b.functions@[k].model());
    }
    assert(fn_names(a) =~= fn_names(b));
}

/// Whether modules are of the same models, one by one.
spec fn same_modules(a: Seq<BcModule>, b: Seq<BcModule>) -> bool {
    &&& a.len() == b.len()
    &&& forall|i: int| 0 <= i < a.len() ==> (#[trigger] a[i]).model() == b[i].model()
}

proof fn lemma_module_at_same(a: Seq<BcModule>, b: Seq<BcModule>, name: Seq<char>)
    requires
        same_modules(a, b),
    ensures
        module_at(a, name) == module_at(b, name),
        module_at(a, name) matches Some(k) ==> 0 <= k < a.len(),
{
    assert forall|i: int| 0 <= i < a.len() implies module_names(a)[i] == module_names(b)[i] by {
        lemma_module_parts(a[i], b[i]);
    }
    assert(module_names(a) =~= module_names(b));
    lemma_last_named(module_names(a), name);
}

proof fn lemma_call_same(a: Seq<BcModule>, b: Seq<BcModule>, f: BcFn, g: BcFn, i: Instr)
    requires
        same_modules(a, b),
        f.model() == g.model(),
    ensures
        call_fault(a, f, i) == call_fault(b, g, i),
{
    lemma_link_parts(f, g);
    match i {
        Instr::CallExternal { dst, module_name_idx, fn_name_idx, args_start, n_args, is_view, is_pure } => {
            assert(text_at(f.consts@, module_name_idx) == text_at(g.consts@, module_name_idx));
            assert(text_at(f.consts@, fn_name_idx) == text_at(g.consts@, fn_name_idx));
            match (text_at(f.consts@, module_name_idx), text_at(f.consts@, fn_name_idx)) {
                (Some(mn), Some(fnn)) => {
                    lemma_module_at_same(a, b, mn);
                    match module_at(a, mn) {
                        Some(k) => {
                            lemma_module_parts(a[k], b[k]);
                            lemma_last_named(fn_names(a[k]), fnn);
                            match last_named(fn_names(a[k]), fnn) {
                                Some(j) => {
                                    assert(a[k].functions@[j].model() == b[k].functions@[j].model());
                                    lemma_link_parts(a[k].functions@[j], b[k].functions@[j]);
                                },
                                None => {},
                            }
                        },
                        None => {},
                    }
                },
                _ => {},
            }
        },
        _ => {},
    }
}

proof fn lemma_code_same(a: Seq<BcModule>, b: Seq<BcModule>, f: BcFn, g: BcFn, k: nat)
    requires
        same_modules(a, b),
        f.model() == g.model(),
    ensures
        code_fault(a, f, k) == code_fault(b, g, k),
    decreases f.code@.len() - k,
{
    lemma_model_parts(f, g);
    if k < f.code@.len() {
        lemma_call_same(a, b, f, g, f.code@[k as int]);
        lemma_code_same(a, b, f, g, k + 1);
    }
}

proof fn lemma_fns_same(a: Seq<BcModule>, b: Seq<BcModule>, s: Seq<BcFn>, t: Seq<BcFn>, k: nat)
    requires
        same_modules(a, b),
        s.len() == t.len(),
        forall|i: int| 0 <= i < s.len() ==> (#[trigger] s[i]).model() == t[i].model(),
    ensures
        fns_fault(a, s, k) == fns_fault(b, t, k),
    decreases s.len() - k,
{
    if k < s.len() {
        assert(s[k as int].model() == t[k as int].model());
        lemma_code_same(a, b, s[k as int], t[k as int], 0);
        lemma_fns_same(a, b, s, t, k + 1);
    }
}

/// Modules of the same models link alike.
proof fn lemma_links_same(a: Seq<BcModule>, b: Seq<BcModule>, k: nat)
    requires
        same_modules(a, b),
    ensures
        link_fault(a, k) == link_fault(b, k),
    decreases a.len() - k,
{
    if k < a.len() {
        lemma_module_parts(a[k as int], b[k as int]);
        lemma_fns_same(a, b, a[k as int].functions@, b[k as int].functions@, 0);
        lemma_links_same(a, b, k + 1);
    }
}

proof fn lemma_distinct_same(a: Seq<BcModule>, b: Seq<BcModule>, ms: Seq<BcModule>, k: nat)
    requires
        same_modules(a, b),
    ensures
        same_modules(distinct_after(a, ms, k), distinct_after(b, ms, k)),
    decreases ms.len() - k,
{
    if k < ms.len() {
        lemma_module_at_same(a, b, ms[k as int].name@);
        lemma_distinct_same(a, b, ms, k + 1);
        assert(same_modules(a.push(ms[k as int]), b.push(ms[k as int])));
        lemma_distinct_same(a.push(ms[k as int]), b.push(ms[k as int]), ms, k + 1);
    }
}

/// Two results of checking and compiling a module that stands alone are the same
/// program or the same error.
pub proof fn single_building_is_repeatable<F>(
    funcs: Seq<(String, F)>,
    t: TypedModule,
    a: Result<BcModule, Error>,
    b: Result<BcModule, Error>,
)
    requires
        single_built(funcs, t, a),
        single_built(funcs, t, b),
    ensures
        same_result(a, b),
{
    let x = choose|x: EffectTable| #[trigger] classes_alone(t.module, x) && match front_error(t.checked, t.module, x) {
        Some(v) => a matches Err(e) && e@ == v,
        None => match import_error(funcs, t.module.imports@, None) {
            Some(v) => a matches Err(e) && e@ == v,
            None => builds_alone(t, a),
        },
    };
    let y = choose|y: EffectTable| #[trigger] classes_alone(t.module, y) && match front_error(t.checked, t.module, y) {
        Some(v) => b matches Err(e) && e@ == v,
        None => match import_error(funcs, t.module.imports@, None) {
            Some(v) => b matches Err(e) && e@ == v,
            None => builds_alone(t, b),
        },
    };
    let cx = CtxView { module: t.module, externals: Map::empty(), ifaces: Set::empty() };
    assert(classifies(cx, x) && classifies(cx, y)) by {
        reveal(classes_alone);
    }
    assert forall|name: Seq<char>| #[trigger] x.class(name) == y.class(name) by {
        classifying_is_repeatable(cx, x, y, name);
    }
    lemma_broken_same(t.module, x, y, 0);
    if front_error(t.checked, t.module, x) is None && import_error(funcs, t.module.imports@, None) is None {
        let s = SourceView {
            module: t.module,
            module_name: own_name(t.module),
            ifaces: Set::empty(),
            externs: seq![],
            plan: t.plan@,
        };
        building_is_repeatable(s, Map::empty(), byte_lists(t.defaults@), a, b);
    }
}

proof fn lemma_one_same<F>(
    funcs: Seq<(String, F)>,
    t: TypedModule,
    entries: Seq<ExternView>,
    a: Result<BcModule, Error>,
    b: Result<BcModule, Error>,
)
    requires
        one_built(funcs, t, entries, a),
        one_built(funcs, t, entries, b),
    ensures
        same_result(a, b),
{
    if t.checked is Ok && misuse_from(t.module, 0) is None && import_error(
        funcs,
        t.module.imports@,
        Some(t.name@),
    ) is None {
        let s = SourceView {
            module: t.module,
            module_name: t.name@,
            ifaces: Set::empty(),
            externs: entries,
            plan: t.plan@,
        };
        building_is_repeatable(s, entry_classes(entries), byte_lists(t.defaults@), a, b);
    }
}

/// Whether two results are modules of the same models, or the same error.
pub open spec fn same_results(a: Result<Vec<BcModule>, Error>, b: Result<Vec<BcModule>, Error>) -> bool {
    match (a, b) {
        (Ok(x), Ok(y)) => models(x@) == models(y@),
        (Err(x), Err(y)) => x@ == y@,
        _ => false,
    }
}

/// Where one list of results stops, another has come no further and stops alike.
proof fn lemma_stops_same<F>(
    funcs: Seq<(String, F)>,
    s: Seq<TypedModule>,
    entries: Seq<ExternView>,
    e: Error,
    b: Result<Vec<BcModule>, Error>,
)
    requires
        all_built(funcs, s, entries, Err(e)),
        all_built(funcs, s, entries, b),
    ensures
        b matches Err(x) && x@ == e@,
{
    let (k, done) = choose|k: int, done: Seq<BcModule>| #[trigger] stops_at(funcs, s, entries, k, done, e);
    match b {
        Ok(v) => {
            assert(one_built(funcs, s[k], entries, Ok(v@[k])));
            lemma_one_same(funcs, s[k], entries, Ok(v@[k]), Err(e));
        },
        Err(x) => {
            let (j, past) = choose|j: int, past: Seq<BcModule>| #[trigger] stops_at(funcs, s, entries, j, past, x);
            if j < k {
                assert(one_built(funcs, s[j], entries, Ok(done[j])));
                lemma_one_same(funcs, s[j], entries, Ok(done[j]), Err(x));
            } else if k < j {
                assert(one_built(funcs, s[k], entries, Ok(past[k])));
                lemma_one_same(funcs, s[k], entries, Ok(past[k]), Err(e));
            } else {
                lemma_one_same(funcs, s[k], entries, Err(e), Err(x));
            }
        },
    }
}

/// What has been compiled, once it has been linked.
spec fn is_linked(b: Result<Vec<BcModule>, Error>, r: Result<Vec<BcModule>, Error>) -> bool {
    match b {
        Err(x) => r matches Err(e) && e@ == x@,
        Ok(v) => match link_fault(v@, 0) {
            Some(x) => r matches Err(e) && e@ == x,
            None => r matches Ok(w) && w@ == v@,
        },
    }
}

/// Two results of compiling and linking the same modules are the same programs or
/// the same error.
pub proof fn set_building_is_repeatable<F>(
    funcs: Seq<(String, F)>,
    s: Seq<TypedModule>,
    a: Result<Vec<BcModule>, Error>,
    b: Result<Vec<BcModule>, Error>,
)
    requires
        set_built(funcs, s, a),
        set_built(funcs, s, b),
    ensures
        same_results(a, b),
{
    if misnamed_from(s, 0) is None {
        let entries = all_decl_entries(s, s.len());
        let x = choose|x: Result<Vec<BcModule>, Error>| #[trigger]
            all_built(funcs, s, entries, x) && is_linked(x, a);
        let y = choose|y: Result<Vec<BcModule>, Error>| #[trigger]
            all_built(funcs, s, entries, y) && is_linked(y, b);
        match (x, y) {
            (Ok(v), Ok(w)) => {
                assert forall|i: int| 0 <= i < v@.len() implies (#[trigger] v@[i]).model() == w@[i].model() by {
                    assert(one_built(funcs, s[i], entries, Ok(w@[i])));
                    lemma_one_same(funcs, s[i], entries, Ok(v@[i]), Ok(w@[i]));
                }
                assert(same_modules(v@, w@));
                lemma_links_same(v@, w@, 0);
                lemma_same_models(v@, w@);
            },
            (Err(e), _) => lemma_stops_same(funcs, s, entries, e, y),
            (_, Err(e)) => lemma_stops_same(funcs, s, entries, e, x),
        }
    }
}

/// What has been compiled, once it has been linked against its dependencies.
spec fn is_linked_tx(deps: Seq<BcModule>, b: Result<BcModule, Error>, r: Result<BcModule, Error>) -> bool {
    match b {
        Err(x) => r matches Err(e) && e@ == x@,
        Ok(bc) => match link_fault(distinct_after(seq![bc], deps, 0), 0) {
            Some(x) => r matches Err(e) && e@ == x,
            None => r matches Ok(o) && o == bc,
        },
    }
}

/// Two results of compiling one transaction against the same dependencies are the
/// same program or the same error.
pub proof fn tx_building_is_repeatable<F>(
    funcs: Seq<(String, F)>,
    t: TypedModule,
    deps: Seq<BcModule>,
    a: Result<BcModule, Error>,
    b: Result<BcModule, Error>,
)
    requires
        tx_built(funcs, t, deps, a),
        tx_built(funcs, t, deps, b),
    ensures
        same_result(a, b),
{
    if tx_error(funcs, t, deps) is None {
        let x = choose|x: Result<BcModule, Error>| #[trigger] builds_tx(t, deps, x) && is_linked_tx(deps, x, a);
        let y = choose|y: Result<BcModule, Error>| #[trigger] builds_tx(t, deps, y) && is_linked_tx(deps, y, b);
        let entries = dep_entries(deps, deps.len());
        let s = SourceView {
            module: t.module,
            module_name: own_name(t.module),
            ifaces: iface_names(deps),
            externs: entries,
            plan: t.plan@,
        };
        building_is_repeatable(s, entry_classes(entries), byte_lists(t.defaults@), x, y);
        match (x, y) {
            (Ok(v), Ok(w)) => {
                assert(same_modules(seq![v], seq![w]));
                lemma_distinct_same(seq![v], seq![w], deps, 0);
                lemma_links_same(distinct_after(seq![v], deps, 0), distinct_after(seq![w], deps, 0), 0);
            },
            _ => {},
        }
    }
}

/// Whether two results are artifacts with the same bytes and the same hash, or the
/// same error.
pub open spec fn same_artifact(a: Result<Artifact, Error>, b: Result<Artifact, Error>) -> bool {
    match (a, b) {
        (Ok(x), Ok(y)) => x.bytes@ == y.bytes@ && x.content_hash == y.content_hash,
        (Err(x), Err(y)) => x@ == y@,
        _ => false,
    }
}

/// What has been built, once it has been packed.
spec fn is_packed(b: Result<BcModule, Error>, r: Result<Artifact, Error>) -> bool {
    match b {
        Err(x) => r matches Err(e) && e@ == x@,
        Ok(bc) => r matches Ok(a) && packs(a, seq![bc]),
    }
}

/// `Engine::compile` gives one module one artifact: the same bytes and the same hash
/// at every call, or the same error.
pub proof fn compile_is_repeatable<F>(
    funcs: Seq<(String, F)>,
    t: TypedModule,
    a: Result<Artifact, Error>,
    b: Result<Artifact, Error>,
)
    requires
        compiled(funcs, t, a),
        compiled(funcs, t, b),
    ensures
        same_artifact(a, b),
{
    let x = choose|x: Result<BcModule, Error>| #[trigger] single_built(funcs, t, x) && is_packed(x, a);
    let y = choose|y: Result<BcModule, Error>| #[trigger] single_built(funcs, t, y) && is_packed(y, b);
    single_building_is_repeatable(funcs, t, x, y);
    match (x, y) {
        (Ok(v), Ok(w)) => same_programs_have_one_artifact(v, w),
        _ => {},
    }
}

/// `Engine::compile_modules` gives one set of modules one artifact: the same bytes
/// and the same hash at every call, or the same error.
pub proof fn compile_modules_is_repeatable<F>(
    funcs: Seq<(String, F)>,
    s: Seq<TypedModule>,
    a: Result<Artifact, Error>,
    b: Result<Artifact, Error>,
)
    requires
        set_compiled(funcs, s, a),
        set_compiled(funcs, s, b),
    ensures
        same_artifact(a, b),
{
    if undeclared_from(s, "compile_modules"@, 0) is None {
        let x = choose|x: Result<Vec<BcModule>, Error>| #[trigger]
            set_built(funcs, s, x) && match x {
                Err(v) => a matches Err(e) && e@ == v@,
                Ok(v) => a matches Ok(p) && packs(p, v@),
            };
        let y = choose|y: Result<Vec<BcModule>, Error>| #[trigger]
            set_built(funcs, s, y) && match y {
                Err(v) => b matches Err(e) && e@ == v@,
                Ok(v) => b matches Ok(p) && packs(p, v@),
            };
        set_building_is_repeatable(funcs, s, x, y);
    }
}

/// `Engine::compile_tx` gives one transaction and its dependencies one artifact: the
/// same bytes and the same hash at every call, or the same error.
pub proof fn compile_tx_is_repeatable<F>(
    funcs: Seq<(String, F)>,
    t: TypedModule,
    deps: Seq<BcModule>,
    a: Result<Artifact, Error>,
    b: Result<Artifact, Error>,
)
    requires
        tx_compiled(funcs, t, deps, a),
        tx_compiled(funcs, t, deps, b),
    ensures
        same_artifact(a, b),
{
    let x = choose|x: Result<BcModule, Error>| #[trigger] tx_built(funcs, t, deps, x) && is_packed(x, a);
    let y = choose|y: Result<BcModule, Error>| #[trigger] tx_built(funcs, t, deps, y) && is_packed(y, b);
    tx_building_is_repeatable(funcs, t, deps, x, y);
    match (x, y) {
        (Ok(v), Ok(w)) => same_programs_have_one_artifact(v, w),
        _ => {},
    }
}

} // verus!
