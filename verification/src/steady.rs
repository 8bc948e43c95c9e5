//! What a run of the interpreter does not depend on.
//!
//! A program runs against the replies that are at hand. Where one is missing the run
//! stops and names the request; it is then run again from the start with one reply
//! more. That this is one run, told in parts, is what is proved here: once a run has
//! come to its end, neither further replies nor more fuel change how it ended.

use vstd::prelude::*;
use crate::ast::{Block, CompClause, ElseBranch, Expr, ExprKind, IfStmt, IndexDecl, Stmt, StructField, Type};
use crate::interp::{
    arm_at,
    assign_of,
    block_flow_of,
    block_value_of,
    call_of,
    comp_each_of,
    comp_item_of,
    comp_of,
    decl_fields,
    delete_of, deleted, dict_of, drop_entry, each_of, entry_of, eval_of, evals_of, field_values, fn_call_of,
    handlers_of, handles, if_flow_of, if_value_of, in_arm, index_of, indexed, indexed_all, inside, iter_of,
    lookup_of,
    module_name,
    object_of,
    on,
    output_array,
    par_each_of,
    par_of,
    put_entry,
    range_bounds,
    range_of,
    range_value,
    read_root,
    set_of,
    state_argument,
    state_builtin,
    state_call_of,
    state_path,
    state_type,
    stmt_of,
    stmts_of,
    stored, struct_of, unindexed, unindexed_all, while_of, FlowView, Ran,
};
use crate::json::put;
use crate::machine::{
    asked,
    asked_done,
    asked_option,
    closed,
    opened,
    with_local,
    with_pipe,
    without_locals,
    MachineView,
    Op,
    RequestView,
    Setting,
    Stop,
};
use crate::ops::{with_entry, with_member};
use crate::tables::first_place;
use crate::token::Span;
use crate::value::{field_at, ValueView};

verus! {

/// Whether a run came to its end: it neither waits for a reply nor ran out of fuel.
pub open spec fn settled<T>(r: Ran<T>) -> bool {
    match r {
        Ok(_) => true,
        Err(Stop::Need(_)) => false,
        Err(Stop::OutOfFuel) => false,
        Err(_) => true,
    }
}

/// Whether a second run ends as the first, once the first came to its end.
pub open spec fn keeps<T>(first: Ran<T>, second: Ran<T>) -> bool {
    settled(first) ==> second == first
}

/// Whether a setting is another with more replies at the end.
pub open spec fn extends(cx: Setting, wider: Setting) -> bool {
    &&& wider.module == cx.module
    &&& wider.sender == cx.sender
    &&& wider.block_timestamp == cx.block_timestamp
    &&& wider.block_number == cx.block_number
    &&& cx.replies@.len() <= wider.replies@.len()
    &&& forall|i: int| 0 <= i < cx.replies@.len() ==> #[trigger] wider.replies@[i] == cx.replies@[i]
}

/// Whether every request that is answered has the same answer in the wider setting.
spec fn answers_stay(cx: Setting, wider: Setting) -> bool {
    &&& wider.module == cx.module
    &&& wider.sender == cx.sender
    &&& wider.block_timestamp == cx.block_timestamp
    &&& wider.block_number == cx.block_number
    &&& forall|m: MachineView, req: RequestView|
        match #[trigger] asked(cx, m, req) {
            Err(_) => true,
            r => asked(wider, m, req) == r,
        }
}

proof fn lemma_answers_stay(cx: Setting, wider: Setting)
    requires
        extends(cx, wider),
    ensures
        answers_stay(cx, wider),
{
    assert forall|m: MachineView, req: RequestView|
        match #[trigger] asked(cx, m, req) {
            Err(_) => true,
            r => asked(wider, m, req) == r,
        } by {
        if m.used < cx.replies@.len() {
            assert(wider.replies@[m.used as int] == cx.replies@[m.used as int]);
        }
    }
}

proof fn lemma_same_path(cx: Setting, wider: Setting, m: MachineView, e: Expr, after: Seq<Seq<char>>)
    requires
        answers_stay(cx, wider),
    ensures
        state_path(wider, m, e, after) == state_path(cx, m, e, after),
    decreases e,
{
    match e.kind {
        ExprKind::Field { target, name } => lemma_same_path(cx, wider, m, *target, seq![name@] + after),
        _ => {},
    }
}

proof fn keep_indexed(cx: Setting, wider: Setting, m: MachineView, idx: IndexDecl, key: ValueView, value: ValueView)
    requires
        answers_stay(cx, wider),
    ensures
        keeps(indexed(cx, m, idx, key, value), indexed(wider, m, idx, key, value)),
{
}

proof fn keep_unindexed(cx: Setting, wider: Setting, m: MachineView, idx: IndexDecl, key: ValueView, value: ValueView)
    requires
        answers_stay(cx, wider),
    ensures
        keeps(unindexed(cx, m, idx, key, value), unindexed(wider, m, idx, key, value)),
{
}

proof fn keep_indexed_all(
    cx: Setting,
    wider: Setting,
    m: MachineView,
    i: nat,
    state: Seq<char>,
    key: ValueView,
    value: ValueView,
)
    requires
        answers_stay(cx, wider),
    ensures
        keeps(indexed_all(cx, m, i, state, key, value), indexed_all(wider, m, i, state, key, value)),
    decreases cx.module.indexes@.len() - i,
{
    if i < cx.module.indexes@.len() {
        let idx = cx.module.indexes@[i as int];
        if idx.on_state@ != state {
            keep_indexed_all(cx, wider, m, i + 1, state, key, value);
        } else {
            keep_indexed(cx, wider, m, idx, key, value);
            match indexed(cx, m, idx, key, value) {
                Ok((_, m2)) => keep_indexed_all(cx, wider, m2, i + 1, state, key, value),
                Err(_) => {},
            }
        }
    }
}

proof fn keep_unindexed_all(
    cx: Setting,
    wider: Setting,
    m: MachineView,
    i: nat,
    state: Seq<char>,
    key: ValueView,
    value: ValueView,
)
    requires
        answers_stay(cx, wider),
    ensures
        keeps(unindexed_all(cx, m, i, state, key, value), unindexed_all(wider, m, i, state, key, value)),
    decreases cx.module.indexes@.len() - i,
{
    if i < cx.module.indexes@.len() {
        let idx = cx.module.indexes@[i as int];
        if idx.on_state@ != state {
            keep_unindexed_all(cx, wider, m, i + 1, state, key, value);
        } else {
            keep_unindexed(cx, wider, m, idx, key, value);
            match unindexed(cx, m, idx, key, value) {
                Ok((_, m2)) => keep_unindexed_all(cx, wider, m2, i + 1, state, key, value),
                Err(_) => {},
            }
        }
    }
}

proof fn keep_entry(cx: Setting, wider: Setting, m: MachineView, state: Seq<char>, t: Type, vt: Type, k: ValueView)
    requires
        answers_stay(cx, wider),
    ensures
        keeps(entry_of(cx, m, state, t, vt, k), entry_of(wider, m, state, t, vt, k)),
{
}

proof fn keep_deleted(cx: Setting, wider: Setting, m: MachineView, state: Seq<char>, t: Type, k: ValueView)
    requires
        answers_stay(cx, wider),
    ensures
        keeps(deleted(cx, m, state, t, k), deleted(wider, m, state, t, k)),
{
    match read_root(cx, m, state, t) {
        Err(_) => {},
        Ok((p, m1)) => match asked_option(cx, m1, on(Op::Get, t, p.0, 0, seq![k])) {
            Err(_) => {},
            Ok((prior, m2)) => match drop_entry(cx, m2, state, t, p.0, k) {
                Err(_) => {},
                Ok((_, m3)) => match prior {
                    Some(v) => keep_unindexed_all(cx, wider, m3, 0, state, k, v),
                    None => {},
                },
            },
        },
    }
}

proof fn keep_stored(
    cx: Setting,
    wider: Setting,
    m: MachineView,
    state: Seq<char>,
    k: ValueView,
    v: ValueView,
    span: Span,
)
    requires
        answers_stay(cx, wider),
    ensures
        keeps(stored(cx, m, state, k, v, span), stored(wider, m, state, k, v, span)),
{
    match state_type(cx, state) {
        Some(t) => match t {
            Type::PMap { key, value } => match read_root(cx, m, state, t) {
                Err(_) => {},
                Ok((p, m1)) => match put_entry(cx, m1, state, t, p.0, k, v) {
                    Err(_) => {},
                    Ok((_, m2)) => keep_indexed_all(cx, wider, m2, 0, state, k, v),
                },
            },
            _ => {},
        },
        None => {},
    }
}

proof fn keep_evals(
    cx: Setting,
    wider: Setting,
    f: nat,
    g: nat,
    s: Seq<Expr>,
    i: nat,
    acc: Seq<ValueView>,
    m: MachineView,
)
    requires
        answers_stay(cx, wider),
        f <= g,
    ensures
        keeps(evals_of(cx, f, s, i, acc, m), evals_of(wider, g, s, i, acc, m)),
    decreases f, s.len() - i,
{
    if f > 0 {
        let p = (f - 1) as nat;
        let q = (g - 1) as nat;
        if i < s.len() {
            keep_eval(cx, wider, p, q, s[i as int], m);
            match eval_of(cx, p, s[i as int], m) {
                Ok((v, m2)) => keep_evals(cx, wider, f, g, s, i + 1, acc.push(v), m2),
                Err(_) => {},
            }
        }
    }
}

proof fn keep_object(
    cx: Setting,
    wider: Setting,
    f: nat,
    g: nat,
    s: Seq<(String, Expr)>,
    i: nat,
    acc: Seq<(Seq<char>, ValueView)>,
    m: MachineView,
)
    requires
        answers_stay(cx, wider),
        f <= g,
    ensures
        keeps(object_of(cx, f, s, i, acc, m), object_of(wider, g, s, i, acc, m)),
    decreases f, s.len() - i,
{
    if f > 0 {
        let p = (f - 1) as nat;
        let q = (g - 1) as nat;
        if i < s.len() {
            keep_eval(cx, wider, p, q, s[i as int].1, m);
            match eval_of(cx, p, s[i as int].1, m) {
                Ok((v, m2)) => keep_object(cx, wider, f, g, s, i + 1, put(acc, s[i as int].0@, v), m2),
                Err(_) => {},
            }
        }
    }
}

proof fn keep_set(
    cx: Setting,
    wider: Setting,
    f: nat,
    g: nat,
    s: Seq<Expr>,
    i: nat,
    acc: Seq<ValueView>,
    m: MachineView,
)
    requires
        answers_stay(cx, wider),
        f <= g,
    ensures
        keeps(set_of(cx, f, s, i, acc, m), set_of(wider, g, s, i, acc, m)),
    decreases f, s.len() - i,
{
    if f > 0 {
        let p = (f - 1) as nat;
        let q = (g - 1) as nat;
        if i < s.len() {
            keep_eval(cx, wider, p, q, s[i as int], m);
            match eval_of(cx, p, s[i as int], m) {
                Ok((v, m2)) => keep_set(cx, wider, f, g, s, i + 1, with_member(acc, v), m2),
                Err(_) => {},
            }
        }
    }
}

proof fn keep_struct(
    cx: Setting,
    wider: Setting,
    f: nat,
    g: nat,
    decl: Seq<StructField>,
    i: nat,
    name: Seq<char>,
    given: Seq<(String, Expr)>,
    span: Span,
    acc: Seq<(Seq<char>, ValueView)>,
    m: MachineView,
)
    requires
        answers_stay(cx, wider),
        f <= g,
    ensures
        keeps(
            struct_of(cx, f, decl, i, name, given, span, acc, m),
            struct_of(wider, g, decl, i, name, given, span, acc, m),
        ),
    decreases f, decl.len() - i,
{
    if f > 0 {
        let p = (f - 1) as nat;
        let q = (g - 1) as nat;
        if i < decl.len() {
            match first_place(given, decl[i as int].name@) {
                None => {},
                Some(k) => {
                    keep_eval(cx, wider, p, q, given[k].1, m);
                    match eval_of(cx, p, given[k].1, m) {
                        Ok((v, m2)) => keep_struct(
                            cx,
                            wider,
                            f,
                            g,
                            decl,
                            i + 1,
                            name,
                            given,
                            span,
                            acc.push((decl[i as int].name@, v)),
                            m2,
                        ),
                        Err(_) => {},
                    }
                },
            }
        }
    }
}

proof fn keep_dict(
    cx: Setting,
    wider: Setting,
    f: nat,
    g: nat,
    s: Seq<(Expr, Expr)>,
    i: nat,
    acc: Seq<(ValueView, ValueView)>,
    m: MachineView,
)
    requires
        answers_stay(cx, wider),
        f <= g,
    ensures
        keeps(dict_of(cx, f, s, i, acc, m), dict_of(wider, g, s, i, acc, m)),
    decreases f, s.len() - i,
{
    if f > 0 {
        let p = (f - 1) as nat;
        let q = (g - 1) as nat;
        if i < s.len() {
            keep_eval(cx, wider, p, q, s[i as int].0, m);
            match eval_of(cx, p, s[i as int].0, m) {
                Ok((k, m2)) => {
                    keep_eval(cx, wider, p, q, s[i as int].1, m2);
                    match eval_of(cx, p, s[i as int].1, m2) {
                        Ok((v, m3)) => keep_dict(cx, wider, f, g, s, i + 1, with_entry(acc, k, v), m3),
                        Err(_) => {},
                    }
                },
                Err(_) => {},
            }
        }
    }
}

#[verifier::rlimit(60)]
proof fn keep_index(cx: Setting, wider: Setting, f: nat, g: nat, target: Expr, key: Expr, span: Span, m: MachineView)
    requires
        answers_stay(cx, wider),
        f <= g,
    ensures
        keeps(index_of(cx, f, target, key, span, m), index_of(wider, g, target, key, span, m)),
    decreases f, 0nat,
{
    if f > 0 {
        let p = (f - 1) as nat;
        let q = (g - 1) as nat;
        let state = match target.kind {
            ExprKind::Ident(name) => name@,
            _ => seq![],
        };
        let t = match target.kind {
            ExprKind::Ident(name) => state_type(cx, name@),
            _ => None,
        };
        keep_eval(cx, wider, p, q, target, m);
        keep_eval(cx, wider, p, q, key, m);
        match eval_of(cx, p, target, m) {
            Ok((a, m2)) => keep_eval(cx, wider, p, q, key, m2),
            Err(_) => {},
        }
        match eval_of(cx, p, key, m) {
            Ok((k, m2)) => match t {
                Some(Type::PMap { key: kt, value: vt }) => keep_entry(cx, wider, m2, state, t->0, *vt, k),
                Some(Type::PBTree { key: kt, value: vt }) => keep_entry(cx, wider, m2, state, t->0, *vt, k),
                _ => {},
            },
            Err(_) => {},
        }
    }
}

proof fn keep_lookup(cx: Setting, wider: Setting, f: nat, g: nat, name: Seq<char>, span: Span, m: MachineView)
    requires
        answers_stay(cx, wider),
        f <= g,
    ensures
        keeps(lookup_of(cx, f, name, span, m), lookup_of(wider, g, name, span, m)),
    decreases f, 0nat,
{
    if f > 0 {
        let p = (f - 1) as nat;
        let q = (g - 1) as nat;
        match first_place(cx.module.consts@, name) {
            Some(k) => keep_eval(cx, wider, p, q, cx.module.consts@[k].value, without_locals(m)),
            None => {},
        }
    }
}

proof fn keep_iter(cx: Setting, wider: Setting, f: nat, g: nat, e: Expr, m: MachineView)
    requires
        answers_stay(cx, wider),
        f <= g,
    ensures
        keeps(iter_of(cx, f, e, m), iter_of(wider, g, e, m)),
    decreases f, 0nat,
{
    if f > 0 {
        let p = (f - 1) as nat;
        let q = (g - 1) as nat;
        keep_eval(cx, wider, p, q, e, m);
    }
}

#[verifier::rlimit(60)]
proof fn keep_state_call(
    cx: Setting,
    wider: Setting,
    f: nat,
    g: nat,
    name: Seq<char>,
    args: Seq<Expr>,
    span: Span,
    m: MachineView,
)
    requires
        answers_stay(cx, wider),
        f <= g,
    ensures
        keeps(state_call_of(cx, f, name, args, span, m), state_call_of(wider, g, name, args, span, m)),
    decreases f, 0nat,
{
    if f > 0 {
        let p = (f - 1) as nat;
        let q = (g - 1) as nat;
        match state_argument(cx, name, args, span) {
            Err(_) => {},
            Ok((state, t)) => match read_root(cx, m, state, t) {
                Err(_) => {},
                Ok((r, m1)) => {
                    keep_eval(cx, wider, p, q, args[1], m1);
                    match eval_of(cx, p, args[1], m1) {
                        Ok((_, m2)) => keep_eval(cx, wider, p, q, args[2], m2),
                        Err(_) => {},
                    }
                },
            },
        }
    }
}

proof fn keep_call(cx: Setting, wider: Setting, f: nat, g: nat, name: Seq<char>, args: Seq<ValueView>, m: MachineView)
    requires
        answers_stay(cx, wider),
        f <= g,
    ensures
        keeps(call_of(cx, f, name, args, m), call_of(wider, g, name, args, m)),
    decreases f, 0nat,
{
    if f > 0 {
        let p = (f - 1) as nat;
        let q = (g - 1) as nat;
        match first_place(cx.module.functions@, name) {
            None => {},
            Some(k) => keep_fn_call(cx, wider, p, q, k, args, m),
        }
    }
}

proof fn keep_fn_call(cx: Setting, wider: Setting, f: nat, g: nat, k: int, args: Seq<ValueView>, m: MachineView)
    requires
        answers_stay(cx, wider),
        f <= g,
    ensures
        keeps(fn_call_of(cx, f, k, args, m), fn_call_of(wider, g, k, args, m)),
    decreases f, 0nat,
{
    if f > 0 {
        let p = (f - 1) as nat;
        let q = (g - 1) as nat;
        keep_block_flow(cx, wider, p, q, cx.module.functions@[k].body, true, inside(cx, m, k, args));
    }
}

proof fn keep_block_value(cx: Setting, wider: Setting, f: nat, g: nat, b: Block, span: Span, m: MachineView)
    requires
        answers_stay(cx, wider),
        f <= g,
    ensures
        keeps(block_value_of(cx, f, b, span, m), block_value_of(wider, g, b, span, m)),
    decreases f, 0nat,
{
    if f > 0 {
        let p = (f - 1) as nat;
        let q = (g - 1) as nat;
        keep_stmts(cx, wider, p, q, b.stmts@, 0, opened(m));
        match stmts_of(cx, p, b.stmts@, 0, opened(m)) {
            Ok((_, m2)) => match b.tail {
                Some(t) => keep_eval(cx, wider, p, q, *t, m2),
                None => {},
            },
            Err(_) => {},
        }
    }
}

proof fn keep_if_value(
    cx: Setting,
    wider: Setting,
    f: nat,
    g: nat,
    cond: Expr,
    then_block: Block,
    else_branch: ElseBranch,
    span: Span,
    m: MachineView,
)
    requires
        answers_stay(cx, wider),
        f <= g,
    ensures
        keeps(
            if_value_of(cx, f, cond, then_block, else_branch, span, m),
            if_value_of(wider, g, cond, then_block, else_branch, span, m),
        ),
    decreases f, 0nat,
{
    if f > 0 {
        let p = (f - 1) as nat;
        let q = (g - 1) as nat;
        keep_eval(cx, wider, p, q, cond, m);
        match eval_of(cx, p, cond, m) {
            Ok((c, m2)) => {
                keep_block_value(cx, wider, p, q, then_block, then_block.span, m2);
                match else_branch {
                    ElseBranch::Absent => {},
                    ElseBranch::Block(b) => keep_block_value(cx, wider, p, q, b, b.span, m2),
                    ElseBranch::If(i) => keep_if_value(
                        cx,
                        wider,
                        p,
                        q,
                        i.cond,
                        i.then_block,
                        i.else_branch,
                        i.span,
                        m2,
                    ),
                }
            },
            Err(_) => {},
        }
    }
}

proof fn keep_comp(
    cx: Setting,
    wider: Setting,
    f: nat,
    g: nat,
    e: Expr,
    clauses: Seq<CompClause>,
    i: nat,
    acc: ValueView,
    m: MachineView,
)
    requires
        answers_stay(cx, wider),
        f <= g,
    ensures
        keeps(comp_of(cx, f, e, clauses, i, acc, m), comp_of(wider, g, e, clauses, i, acc, m)),
    decreases f, 0nat,
{
    if f > 0 {
        let p = (f - 1) as nat;
        let q = (g - 1) as nat;
        if i >= clauses.len() {
            keep_comp_item(cx, wider, p, q, e, acc, m);
        } else {
            match clauses[i as int] {
                CompClause::For { var, iter } => {
                    keep_iter(cx, wider, p, q, iter, m);
                    match iter_of(cx, p, iter, m) {
                        Ok((v, m2)) => match v {
                            ValueView::Array(s) => keep_comp_each(cx, wider, p, q, e, clauses, i, var@, s, 0, acc, m2),
                            _ => {},
                        },
                        Err(_) => {},
                    }
                },
                CompClause::If(cond) => {
                    keep_eval(cx, wider, p, q, cond, m);
                    match eval_of(cx, p, cond, m) {
                        Ok((_, m2)) => keep_comp(cx, wider, p, q, e, clauses, i + 1, acc, m2),
                        Err(_) => {},
                    }
                },
            }
        }
    }
}

proof fn keep_comp_each(
    cx: Setting,
    wider: Setting,
    f: nat,
    g: nat,
    e: Expr,
    clauses: Seq<CompClause>,
    i: nat,
    var: Seq<char>,
    s: Seq<ValueView>,
    j: nat,
    acc: ValueView,
    m: MachineView,
)
    requires
        answers_stay(cx, wider),
        f <= g,
    ensures
        keeps(
            comp_each_of(cx, f, e, clauses, i, var, s, j, acc, m),
            comp_each_of(wider, g, e, clauses, i, var, s, j, acc, m),
        ),
    decreases f, s.len() - j,
{
    if f > 0 {
        let p = (f - 1) as nat;
        let q = (g - 1) as nat;
        if j < s.len() {
            let m1 = with_local(opened(m), var, s[j as int]);
            keep_comp(cx, wider, p, q, e, clauses, i + 1, acc, m1);
            match comp_of(cx, p, e, clauses, i + 1, acc, m1) {
                Ok((acc2, m2)) => keep_comp_each(cx, wider, f, g, e, clauses, i, var, s, j + 1, acc2, closed(m2)),
                Err(_) => {},
            }
        }
    }
}

proof fn keep_comp_item(cx: Setting, wider: Setting, f: nat, g: nat, e: Expr, acc: ValueView, m: MachineView)
    requires
        answers_stay(cx, wider),
        f <= g,
    ensures
        keeps(comp_item_of(cx, f, e, acc, m), comp_item_of(wider, g, e, acc, m)),
    decreases f, 0nat,
{
    if f > 0 {
        let p = (f - 1) as nat;
        let q = (g - 1) as nat;
        match e.kind {
            ExprKind::ListComp { mapper, clauses } => keep_eval(cx, wider, p, q, *mapper, m),
            ExprKind::SetComp { mapper, clauses } => keep_eval(cx, wider, p, q, *mapper, m),
            ExprKind::DictComp { key, value, clauses } => {
                keep_eval(cx, wider, p, q, *key, m);
                match eval_of(cx, p, *key, m) {
                    Ok((_, m2)) => keep_eval(cx, wider, p, q, *value, m2),
                    Err(_) => {},
                }
            },
            _ => {},
        }
    }
}

proof fn keep_stmts(cx: Setting, wider: Setting, f: nat, g: nat, s: Seq<Stmt>, i: nat, m: MachineView)
    requires
        answers_stay(cx, wider),
        f <= g,
    ensures
        keeps(stmts_of(cx, f, s, i, m), stmts_of(wider, g, s, i, m)),
    decreases f, s.len() - i,
{
    if f > 0 {
        let p = (f - 1) as nat;
        let q = (g - 1) as nat;
        if i < s.len() {
            keep_stmt(cx, wider, p, q, s[i as int], m);
            match stmt_of(cx, p, s[i as int], m) {
                Ok((_, m2)) => keep_stmts(cx, wider, f, g, s, i + 1, m2),
                Err(_) => {},
            }
        }
    }
}

proof fn keep_block_flow(cx: Setting, wider: Setting, f: nat, g: nat, b: Block, returns_tail: bool, m: MachineView)
    requires
        answers_stay(cx, wider),
        f <= g,
    ensures
        keeps(block_flow_of(cx, f, b, returns_tail, m), block_flow_of(wider, g, b, returns_tail, m)),
    decreases f, 0nat,
{
    if f > 0 {
        let p = (f - 1) as nat;
        let q = (g - 1) as nat;
        keep_stmts(cx, wider, p, q, b.stmts@, 0, opened(m));
        match stmts_of(cx, p, b.stmts@, 0, opened(m)) {
            Ok((_, m2)) => match b.tail {
                Some(t) => keep_eval(cx, wider, p, q, *t, m2),
                None => {},
            },
            Err(_) => {},
        }
    }
}

#[verifier::spinoff_prover]
#[verifier::rlimit(80)]
proof fn keep_stmt(cx: Setting, wider: Setting, f: nat, g: nat, s: Stmt, m: MachineView)
    requires
        answers_stay(cx, wider),
        f <= g,
    ensures
        keeps(stmt_of(cx, f, s, m), stmt_of(wider, g, s, m)),
    decreases f, 0nat,
{
    if f > 0 {
        let p = (f - 1) as nat;
        let q = (g - 1) as nat;
        match s {
            Stmt::Let { name, ty, value, span } => {
                keep_eval(cx, wider, p, q, value, m);
            },
            Stmt::Assign { target, value, span } => {
                keep_eval(cx, wider, p, q, value, m);
                match eval_of(cx, p, value, m) {
                    Ok((v, m2)) => {
                        keep_assign(cx, wider, p, q, target, v, m2);
                    },
                    Err(_) => {},
                }
            },
            Stmt::Return { value, span } => {
                match value {
                    Some(e) => keep_eval(cx, wider, p, q, e, m),
                    None => {},
                }
            },
            Stmt::If(i) => {
                keep_if_flow(cx, wider, p, q, i, m);
            },
            Stmt::While { cond, body, span } => {
                keep_while(cx, wider, p, q, cond, body, span, m);
            },
            Stmt::For { var, iter, body, span } => {
                keep_iter(cx, wider, p, q, iter, m);
                match iter_of(cx, p, iter, m) {
                    Ok((v, m2)) => match v {
                        ValueView::Array(s) => keep_each(cx, wider, p, q, var@, s, 0, body, m2),
                        _ => {},
                    },
                    Err(_) => {},
                }
            },
            Stmt::ForRange { var, start, end, inclusive, body, span } => {
                keep_eval(cx, wider, p, q, start, m);
                match eval_of(cx, p, start, m) {
                    Ok((a, m2)) => {
                        keep_eval(cx, wider, p, q, end, m2);
                        match eval_of(cx, p, end, m2) {
                            Ok((b, m3)) => {
                                match range_bounds(a, b) {
                                    Some((kind, lo, hi)) => keep_range(
                                        cx,
                                        wider,
                                        p,
                                        q,
                                        var@,
                                        kind,
                                        lo,
                                        hi,
                                        inclusive,
                                        body,
                                        m3,
                                    ),
                                    None => {},
                                }
                            },
                            Err(_) => {},
                        }
                    },
                    Err(_) => {},
                }
            },
            Stmt::Expr(e) => {
                keep_eval(cx, wider, p, q, e, m);
            },
            Stmt::Parallel { stmts, span } => {
                keep_stmts(cx, wider, p, q, stmts@, 0, m);
            },
            Stmt::ParallelForTo { id_var, source, output, body, span } => {
                keep_par(cx, wider, p, q, id_var@, source, output, body, span, m);
            },
            Stmt::Emit { value, span } => {
                keep_eval(cx, wider, p, q, *value, m);
                match eval_of(cx, p, *value, m) {
                    Ok((v, m2)) => {
                        match v {
                            ValueView::Struct { name, fields } => {
                                let req = RequestView::Emit {
                                    module: module_name(cx),
                                    name,
                                    args: field_values(fields),
                                };
                                match asked_done(cx, m2, req) {
                                    Ok((_, m3)) => keep_handlers(cx, wider, p, q, 0, name, v, m3),
                                    Err(_) => {},
                                }
                            },
                            _ => {},
                        }
                    },
                    Err(_) => {},
                }
            },
            Stmt::Delete { target, span } => {
                keep_delete(cx, wider, p, q, target, span, m);
            },
            Stmt::LetTuple { names, value, span } => {
                keep_eval(cx, wider, p, q, value, m);
            },
            _ => {},
        }
    }
}

proof fn keep_if_flow(cx: Setting, wider: Setting, f: nat, g: nat, i: IfStmt, m: MachineView)
    requires
        answers_stay(cx, wider),
        f <= g,
    ensures
        keeps(if_flow_of(cx, f, i, m), if_flow_of(wider, g, i, m)),
    decreases f, 0nat,
{
    if f > 0 {
        let p = (f - 1) as nat;
        let q = (g - 1) as nat;
        keep_eval(cx, wider, p, q, i.cond, m);
        match eval_of(cx, p, i.cond, m) {
            Ok((c, m2)) => {
                keep_block_flow(cx, wider, p, q, i.then_block, false, m2);
                match i.else_branch {
                    ElseBranch::Absent => {},
                    ElseBranch::Block(b) => keep_block_flow(cx, wider, p, q, b, false, m2),
                    ElseBranch::If(inner) => keep_if_flow(cx, wider, p, q, *inner, m2),
                }
            },
            Err(_) => {},
        }
    }
}

proof fn keep_while(cx: Setting, wider: Setting, f: nat, g: nat, cond: Expr, body: Block, span: Span, m: MachineView)
    requires
        answers_stay(cx, wider),
        f <= g,
    ensures
        keeps(while_of(cx, f, cond, body, span, m), while_of(wider, g, cond, body, span, m)),
    decreases f, 0nat,
{
    if f > 0 {
        let p = (f - 1) as nat;
        let q = (g - 1) as nat;
        keep_eval(cx, wider, p, q, cond, m);
        match eval_of(cx, p, cond, m) {
            Ok((c, m2)) => {
                keep_block_flow(cx, wider, p, q, body, false, m2);
                match block_flow_of(cx, p, body, false, m2) {
                    Ok((_, m3)) => keep_while(cx, wider, p, q, cond, body, span, m3),
                    Err(_) => {},
                }
            },
            Err(_) => {},
        }
    }
}

proof fn keep_each(
    cx: Setting,
    wider: Setting,
    f: nat,
    g: nat,
    var: Seq<char>,
    s: Seq<ValueView>,
    i: nat,
    body: Block,
    m: MachineView,
)
    requires
        answers_stay(cx, wider),
        f <= g,
    ensures
        keeps(each_of(cx, f, var, s, i, body, m), each_of(wider, g, var, s, i, body, m)),
    decreases f, s.len() - i,
{
    if f > 0 {
        let p = (f - 1) as nat;
        let q = (g - 1) as nat;
        if i < s.len() {
            let m1 = with_local(opened(m), var, s[i as int]);
            keep_block_flow(cx, wider, p, q, body, false, m1);
            match block_flow_of(cx, p, body, false, m1) {
                Ok((_, m2)) => keep_each(cx, wider, f, g, var, s, i + 1, body, closed(m2)),
                Err(_) => {},
            }
        }
    }
}

proof fn keep_range(
    cx: Setting,
    wider: Setting,
    f: nat,
    g: nat,
    var: Seq<char>,
    kind: int,
    i: int,
    lim: int,
    inclusive: bool,
    body: Block,
    m: MachineView,
)
    requires
        answers_stay(cx, wider),
        f <= g,
    ensures
        keeps(
            range_of(cx, f, var, kind, i, lim, inclusive, body, m),
            range_of(wider, g, var, kind, i, lim, inclusive, body, m),
        ),
    decreases f, (if i <= lim { lim - i + 1 } else { 0 }),
{
    if f > 0 {
        let p = (f - 1) as nat;
        let q = (g - 1) as nat;
        if i <= lim {
            let m1 = with_local(opened(m), var, range_value(kind, i));
            keep_block_flow(cx, wider, p, q, body, false, m1);
            match block_flow_of(cx, p, body, false, m1) {
                Ok((_, m2)) => keep_range(cx, wider, f, g, var, kind, i + 1, lim, inclusive, body, closed(m2)),
                Err(_) => {},
            }
        }
    }
}

proof fn keep_par(
    cx: Setting,
    wider: Setting,
    f: nat,
    g: nat,
    var: Seq<char>,
    source: Expr,
    output: Expr,
    body: Block,
    span: Span,
    m: MachineView,
)
    requires
        answers_stay(cx, wider),
        f <= g,
    ensures
        keeps(par_of(cx, f, var, source, output, body, span, m), par_of(wider, g, var, source, output, body, span, m)),
    decreases f, 0nat,
{
    if f > 0 {
        let p = (f - 1) as nat;
        let q = (g - 1) as nat;
        keep_eval(cx, wider, p, q, source, m);
        match eval_of(cx, p, source, m) {
            Ok((v, m2)) => {
                match v {
                    ValueView::Array(src) => match output_array(output, m2) {
                        Err(_) => {},
                        Ok((name, out)) => keep_par_each(cx, wider, p, q, var, src, 0, out, body, m2),
                    },
                    _ => {},
                }
            },
            Err(_) => {},
        }
    }
}

proof fn keep_par_each(
    cx: Setting,
    wider: Setting,
    f: nat,
    g: nat,
    var: Seq<char>,
    src: Seq<ValueView>,
    i: nat,
    out: Seq<ValueView>,
    body: Block,
    m: MachineView,
)
    requires
        answers_stay(cx, wider),
        f <= g,
    ensures
        keeps(par_each_of(cx, f, var, src, i, out, body, m), par_each_of(wider, g, var, src, i, out, body, m)),
    decreases f, src.len() - i,
{
    if f > 0 {
        let p = (f - 1) as nat;
        let q = (g - 1) as nat;
        if i < src.len() {
            let m1 = with_local(opened(m), var, src[i as int]);
            keep_block_flow(cx, wider, p, q, body, false, m1);
            match block_flow_of(cx, p, body, false, m1) {
                Ok((flow, m2)) => match flow {
                    FlowView::Normal(v) => keep_par_each(
                        cx,
                        wider,
                        f,
                        g,
                        var,
                        src,
                        i + 1,
                        out.update(i as int, v),
                        body,
                        closed(m2),
                    ),
                    _ => keep_par_each(cx, wider, f, g, var, src, i + 1, out, body, closed(m2)),
                },
                Err(_) => {},
            }
        }
    }
}

proof fn keep_handlers(
    cx: Setting,
    wider: Setting,
    f: nat,
    g: nat,
    i: nat,
    name: Seq<char>,
    v: ValueView,
    m: MachineView,
)
    requires
        answers_stay(cx, wider),
        f <= g,
    ensures
        keeps(handlers_of(cx, f, i, name, v, m), handlers_of(wider, g, i, name, v, m)),
    decreases f, cx.module.handlers@.len() - i,
{
    if f > 0 {
        let p = (f - 1) as nat;
        let q = (g - 1) as nat;
        if i < cx.module.handlers@.len() {
            let h = cx.module.handlers@[i as int];
            if !handles(h, name, module_name(cx)) {
                keep_handlers(cx, wider, f, g, i + 1, name, v, m);
            } else {
                keep_call(cx, wider, p, q, h.fn_def.name@, seq![v], m);
                match call_of(cx, p, h.fn_def.name@, seq![v], m) {
                    Ok((_, m2)) => keep_handlers(cx, wider, f, g, i + 1, name, v, m2),
                    Err(_) => {},
                }
            }
        }
    }
}

proof fn keep_delete(cx: Setting, wider: Setting, f: nat, g: nat, target: Expr, span: Span, m: MachineView)
    requires
        answers_stay(cx, wider),
        f <= g,
    ensures
        keeps(delete_of(cx, f, target, span, m), delete_of(wider, g, target, span, m)),
    decreases f, 0nat,
{
    if f > 0 {
        let p = (f - 1) as nat;
        let q = (g - 1) as nat;
        match target.kind {
            ExprKind::Index { target: t, key } => match t.kind {
                ExprKind::Ident(state) => {
                    keep_eval(cx, wider, p, q, *key, m);
                    match eval_of(cx, p, *key, m) {
                        Ok((k, m2)) => match state_type(cx, state@) {
                            Some(ty) => keep_deleted(cx, wider, m2, state@, ty, k),
                            None => {},
                        },
                        Err(_) => {},
                    }
                },
                _ => {},
            },
            _ => {},
        }
    }
}

#[verifier::rlimit(60)]
proof fn keep_assign(cx: Setting, wider: Setting, f: nat, g: nat, target: Expr, v: ValueView, m: MachineView)
    requires
        answers_stay(cx, wider),
        f <= g,
    ensures
        keeps(assign_of(cx, f, target, v, m), assign_of(wider, g, target, v, m)),
    decreases f, 0nat,
{
    if f > 0 {
        let p = (f - 1) as nat;
        let q = (g - 1) as nat;
        match target.kind {
            ExprKind::Index { target: t, key } => match t.kind {
                ExprKind::Ident(state) => {
                    keep_eval(cx, wider, p, q, *key, m);
                    match eval_of(cx, p, *key, m) {
                        Ok((k, m2)) => keep_stored(cx, wider, m2, state@, k, v, target.span),
                        Err(_) => {},
                    }
                },
                _ => {},
            },
            ExprKind::Field { target: inner, name } => {
                lemma_same_path(cx, wider, m, target, seq![]);
                keep_eval(cx, wider, p, q, *inner, m);
                match eval_of(cx, p, *inner, m) {
                    Ok((w, m2)) => match w {
                        ValueView::Struct { name: sname, fields } => match field_at(fields, name@, 0) {
                            Some(k) => keep_assign(
                                cx,
                                wider,
                                p,
                                q,
                                *inner,
                                ValueView::Struct { name: sname, fields: fields.update(k, (fields[k].0, v)) },
                                m2,
                            ),
                            None => {},
                        },
                        _ => {},
                    },
                    Err(_) => {},
                }
            },
            _ => {},
        }
    }
}

#[verifier::spinoff_prover]
#[verifier::rlimit(60)]
proof fn keep_list(cx: Setting, wider: Setting, f: nat, g: nat, e: Expr, m: MachineView)
    requires
        answers_stay(cx, wider),
        0 < f <= g,
        e.kind is JsonObject
            || e.kind is JsonArray
            || e.kind is Array
            || e.kind is StructLit
            || e.kind is SetLit
            || e.kind is DictLit
            || e.kind is TupleLit
            || e.kind is EnumCtor,
    ensures
        keeps(eval_of(cx, f, e, m), eval_of(wider, g, e, m)),
    decreases f, 0nat,
{
    let p = (f - 1) as nat;
    let q = (g - 1) as nat;
    match e.kind {
        ExprKind::JsonObject(ps) => {
            keep_object(cx, wider, p, q, ps@, 0, seq![], m);
        },
        ExprKind::JsonArray(es) => {
            keep_evals(cx, wider, p, q, es@, 0, seq![], m);
        },
        ExprKind::Array(es) => {
            keep_evals(cx, wider, p, q, es@, 0, seq![], m);
        },
        ExprKind::StructLit { name, fields } => {
            match decl_fields(cx, name@) {
                None => {},
                Some(decl) => keep_struct(cx, wider, p, q, decl, 0, name@, fields@, e.span, seq![], m),
            }
        },
        ExprKind::SetLit(es) => {
            keep_set(cx, wider, p, q, es@, 0, seq![], m);
        },
        ExprKind::DictLit(ps) => {
            keep_dict(cx, wider, p, q, ps@, 0, seq![], m);
        },
        ExprKind::TupleLit(es) => {
            keep_evals(cx, wider, p, q, es@, 0, seq![], m);
        },
        ExprKind::EnumCtor { enum_name, variant, args } => {
            keep_evals(cx, wider, p, q, args@, 0, seq![], m);
        },
        _ => {},
    }
}

#[verifier::spinoff_prover]
#[verifier::rlimit(60)]
proof fn keep_part(cx: Setting, wider: Setting, f: nat, g: nat, e: Expr, m: MachineView)
    requires
        answers_stay(cx, wider),
        0 < f <= g,
        e.kind is Ident
            || e.kind is Binary
            || e.kind is Unary
            || e.kind is Index
            || e.kind is Field
            || e.kind is Pipe
            || e.kind is TupleIndex,
    ensures
        keeps(eval_of(cx, f, e, m), eval_of(wider, g, e, m)),
    decreases f, 0nat,
{
    let p = (f - 1) as nat;
    let q = (g - 1) as nat;
    match e.kind {
        ExprKind::Ident(name) => {
            keep_lookup(cx, wider, p, q, name@, e.span, m);
        },
        ExprKind::Binary { op, lhs, rhs } => {
            keep_eval(cx, wider, p, q, *lhs, m);
            match eval_of(cx, p, *lhs, m) {
                Ok((_, m2)) => {
                    keep_eval(cx, wider, p, q, *rhs, m2);
                },
                Err(_) => {},
            }
        },
        ExprKind::Unary { op, operand } => {
            keep_eval(cx, wider, p, q, *operand, m);
        },
        ExprKind::Index { target, key } => {
            keep_index(cx, wider, p, q, *target, *key, e.span, m);
        },
        ExprKind::Field { target, name } => {
            lemma_same_path(cx, wider, m, e, seq![]);
            keep_eval(cx, wider, p, q, *target, m);
        },
        ExprKind::Pipe { head, step } => {
            keep_eval(cx, wider, p, q, *head, m);
            match eval_of(cx, p, *head, m) {
                Ok((v, m2)) => {
                    keep_eval(cx, wider, p, q, *step, with_pipe(m2, v));
                },
                Err(_) => {},
            }
        },
        ExprKind::TupleIndex { target, index } => {
            keep_eval(cx, wider, p, q, *target, m);
        },
        _ => {},
    }
}

#[verifier::spinoff_prover]
#[verifier::rlimit(60)]
proof fn keep_invoke(cx: Setting, wider: Setting, f: nat, g: nat, e: Expr, m: MachineView)
    requires
        answers_stay(cx, wider),
        0 < f <= g,
        e.kind is DynCall || e.kind is Call,
    ensures
        keeps(eval_of(cx, f, e, m), eval_of(wider, g, e, m)),
    decreases f, 0nat,
{
    let p = (f - 1) as nat;
    let q = (g - 1) as nat;
    match e.kind {
        ExprKind::DynCall { target_ident, method, args, method_is_view, method_is_pure } => {
            keep_lookup(cx, wider, p, q, target_ident@, e.span, m);
        },
        ExprKind::Call { module, name, args } => {
            if module is None && state_builtin(name@) != 0 {
                keep_state_call(cx, wider, p, q, name@, args@, e.span, m);
            } else {
                keep_evals(cx, wider, p, q, args@, 0, seq![], m);
                match evals_of(cx, p, args@, 0, seq![], m) {
                    Ok((vs, m2)) => keep_call(cx, wider, p, q, name@, vs, m2),
                    Err(_) => {},
                }
            }
        },
        _ => {},
    }
}

#[verifier::spinoff_prover]
#[verifier::rlimit(60)]
proof fn keep_branch(cx: Setting, wider: Setting, f: nat, g: nat, e: Expr, m: MachineView)
    requires
        answers_stay(cx, wider),
        0 < f <= g,
        e.kind is ListComp
            || e.kind is SetComp
            || e.kind is DictComp
            || e.kind is Match
            || e.kind is Block
            || e.kind is If,
    ensures
        keeps(eval_of(cx, f, e, m), eval_of(wider, g, e, m)),
    decreases f, 0nat,
{
    let p = (f - 1) as nat;
    let q = (g - 1) as nat;
    match e.kind {
        ExprKind::ListComp { mapper, clauses } => {
            keep_comp(cx, wider, p, q, e, clauses@, 0, ValueView::Array(seq![]), m);
        },
        ExprKind::SetComp { mapper, clauses } => {
            keep_comp(cx, wider, p, q, e, clauses@, 0, ValueView::SetOf(seq![]), m);
        },
        ExprKind::DictComp { key, value, clauses } => {
            keep_comp(cx, wider, p, q, e, clauses@, 0, ValueView::Dict(seq![]), m);
        },
        ExprKind::Match { scrut, arms } => {
            keep_eval(cx, wider, p, q, *scrut, m);
            match eval_of(cx, p, *scrut, m) {
                Ok((v, m2)) => {
                    match v {
                        ValueView::Enum { enum_name, variant, payload } => match arm_at(arms@, variant, 0) {
                            None => {},
                            Some(k) => keep_eval(cx, wider, p, q, arms@[k].body, in_arm(m2, arms@[k].pattern, payload)),
                        },
                        _ => {},
                    }
                },
                Err(_) => {},
            }
        },
        ExprKind::Block(b) => {
            keep_block_value(cx, wider, p, q, b, e.span, m);
        },
        ExprKind::If { cond, then_block, else_branch } => {
            keep_if_value(cx, wider, p, q, *cond, then_block, else_branch, e.span, m);
        },
        _ => {},
    }
}

#[verifier::spinoff_prover]
#[verifier::rlimit(60)]
proof fn keep_eval(cx: Setting, wider: Setting, f: nat, g: nat, e: Expr, m: MachineView)
    requires
        answers_stay(cx, wider),
        f <= g,
    ensures
        keeps(eval_of(cx, f, e, m), eval_of(wider, g, e, m)),
    decreases f, 1nat,
{
    if f > 0 {
        match e.kind {
            ExprKind::JsonObject(_) => keep_list(cx, wider, f, g, e, m),
            ExprKind::JsonArray(_) => keep_list(cx, wider, f, g, e, m),
            ExprKind::Array(_) => keep_list(cx, wider, f, g, e, m),
            ExprKind::StructLit { .. } => keep_list(cx, wider, f, g, e, m),
            ExprKind::SetLit(_) => keep_list(cx, wider, f, g, e, m),
            ExprKind::DictLit(_) => keep_list(cx, wider, f, g, e, m),
            ExprKind::TupleLit(_) => keep_list(cx, wider, f, g, e, m),
            ExprKind::EnumCtor { .. } => keep_list(cx, wider, f, g, e, m),
            ExprKind::Ident(_) => keep_part(cx, wider, f, g, e, m),
            ExprKind::Binary { .. } => keep_part(cx, wider, f, g, e, m),
            ExprKind::Unary { .. } => keep_part(cx, wider, f, g, e, m),
            ExprKind::Index { .. } => keep_part(cx, wider, f, g, e, m),
            ExprKind::Field { .. } => keep_part(cx, wider, f, g, e, m),
            ExprKind::Pipe { .. } => keep_part(cx, wider, f, g, e, m),
            ExprKind::TupleIndex { .. } => keep_part(cx, wider, f, g, e, m),
            ExprKind::DynCall { .. } => keep_invoke(cx, wider, f, g, e, m),
            ExprKind::Call { .. } => keep_invoke(cx, wider, f, g, e, m),
            ExprKind::ListComp { .. } => keep_branch(cx, wider, f, g, e, m),
            ExprKind::SetComp { .. } => keep_branch(cx, wider, f, g, e, m),
            ExprKind::DictComp { .. } => keep_branch(cx, wider, f, g, e, m),
            ExprKind::Match { .. } => keep_branch(cx, wider, f, g, e, m),
            ExprKind::Block(_) => keep_branch(cx, wider, f, g, e, m),
            ExprKind::If { .. } => keep_branch(cx, wider, f, g, e, m),
            _ => {},
        }
    }
}

/// Neither more fuel nor further replies change a call that came to its end.
pub proof fn a_settled_call_stays(
    cx: Setting,
    wider: Setting,
    fuel: nat,
    more: nat,
    name: Seq<char>,
    args: Seq<ValueView>,
    m: MachineView,
)
    requires
        extends(cx, wider),
        settled(call_of(cx, fuel, name, args, m)),
    ensures
        call_of(wider, fuel + more, name, args, m) == call_of(cx, fuel, name, args, m),
{
    lemma_answers_stay(cx, wider);
    keep_call(cx, wider, fuel, fuel + more, name, args, m);
}

/// Neither more fuel nor further replies change an expression that came to its end.
pub proof fn a_settled_value_stays(cx: Setting, wider: Setting, fuel: nat, more: nat, e: Expr, m: MachineView)
    requires
        extends(cx, wider),
        settled(eval_of(cx, fuel, e, m)),
    ensures
        eval_of(wider, fuel + more, e, m) == eval_of(cx, fuel, e, m),
{
    lemma_answers_stay(cx, wider);
    keep_eval(cx, wider, fuel, fuel + more, e, m);
}

/// Neither more fuel nor further replies change a statement that came to its end.
pub proof fn a_settled_statement_stays(cx: Setting, wider: Setting, fuel: nat, more: nat, s: Stmt, m: MachineView)
    requires
        extends(cx, wider),
        settled(stmt_of(cx, fuel, s, m)),
    ensures
        stmt_of(wider, fuel + more, s, m) == stmt_of(cx, fuel, s, m),
{
    lemma_answers_stay(cx, wider);
    keep_stmt(cx, wider, fuel, fuel + more, s, m);
}

} // verus!
