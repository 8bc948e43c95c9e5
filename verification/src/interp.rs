//! A tree-walking interpreter.
//!
//! It runs a checked module against the replies that its surroundings give to
//! its requests; see [`crate::machine`].

use vstd::prelude::*;
use vstd::utf8::encode_utf8;
use crate::ast::{
    Block, CompClause, ElseBranch, Expr, ExprKind, HandlerDecl, IfStmt, IndexDecl, IndexKind, MatchArm,
    MatchPattern, Param, SortDirection, Stmt, StructField, Type, type_view, group_of,
};
use crate::bigint::{BigInt, decimal_int};
use crate::defaults::{default_for, default_value};
use crate::entries::{entries_of, Entries};
use crate::error::{Error, ErrorView};
use crate::hashing::{child, child_key, state_key, state_root};
use crate::machine::{
    Halt, Machine, MachineView, Op, Request, RequestView, Setting, Stop, ask_bytes, ask_done, ask_entries,
    ask_flag, ask_host, ask_option, ask_root, ask_root_len, ask_value, ask_values, asked_bytes, asked_done,
    asked_entries, asked_flag, asked_host, asked_option, asked_root, asked_root_len, asked_value,
    asked_values, closed, inner_scope, local, opened, scopes_values, set_in, with_local,
    with_locals, without_locals, with_pipe, without_pipe,
};
use crate::ops::{
    Owed, add_entry, add_member, binary, builtin_gives, call_builtin, convert, conversion, eval_binary,
    eval_unary, find_member, gives, member_at, remove_member, runtime_err, runtime_error, unary,
    with_entry, with_member, without_member,
};
use crate::tables::{find_first, find_last, first_place, place};
use crate::text::{concat2, concat3, concat_num, decimal, push_decimal, same, text};
use crate::token::{Span, no_span};
use crate::value::{
    Json, JsonView, Value, ValueView, copy_values, equal, field_at, field_views, find_field,
    is_keyable_value, key_value, pair_views, shown, value_view, views,
};

verus! {

/// What a step owes: a result and the machine after it, or a halt.
pub type Ran<T> = Result<(T, MachineView), Stop>;

/// How a statement ends.
#[derive(Debug)]
pub enum Flow {
    Normal(Value),
    Return(Value),
    Break,
    Continue,
}

/// The model of a [`Flow`].
pub enum FlowView {
    Normal(ValueView),
    Return(ValueView),
    Break,
    Continue,
}

impl View for Flow {
    type V = FlowView;

    open spec fn view(&self) -> FlowView {
        match *self {
            Flow::Normal(v) => FlowView::Normal(value_view(v)),
            Flow::Return(v) => FlowView::Return(value_view(v)),
            Flow::Break => FlowView::Break,
            Flow::Continue => FlowView::Continue,
        }
    }
}

/// Whether a step left as many scopes and pipes as it found, and the same
/// functions under way.
pub open spec fn level(a: MachineView, b: MachineView) -> bool {
    a.scopes.len() == b.scopes.len() && a.pipe.len() == b.pipe.len() && a.entered == b.entered
}

/// Whether a step gave the value, the machine or the halt that is owed.
pub open spec fn ran(r: Result<Value, Halt>, before: MachineView, after: MachineView, want: Ran<ValueView>) -> bool {
    match want {
        Ok((v, m)) => after == m && level(m, before) && match r {
            Ok(x) => value_view(x) == v,
            Err(_) => false,
        },
        Err(s) => match r {
            Ok(_) => false,
            Err(h) => h@ == s,
        },
    }
}

pub open spec fn ran_list(
    r: Result<Vec<Value>, Halt>,
    before: MachineView,
    after: MachineView,
    want: Ran<Seq<ValueView>>,
) -> bool {
    match want {
        Ok((v, m)) => after == m && level(m, before) && match r {
            Ok(x) => views(x@) == v,
            Err(_) => false,
        },
        Err(s) => match r {
            Ok(_) => false,
            Err(h) => h@ == s,
        },
    }
}

pub open spec fn ran_flow(r: Result<Flow, Halt>, before: MachineView, after: MachineView, want: Ran<FlowView>) -> bool {
    match want {
        Ok((v, m)) => after == m && level(m, before) && match r {
            Ok(x) => x@ == v,
            Err(_) => false,
        },
        Err(s) => match r {
            Ok(_) => false,
            Err(h) => h@ == s,
        },
    }
}

pub open spec fn ran_unit(r: Result<(), Halt>, before: MachineView, after: MachineView, want: Ran<()>) -> bool {
    match want {
        Ok((v, m)) => after == m && level(m, before) && r is Ok,
        Err(s) => match r {
            Ok(_) => false,
            Err(h) => h@ == s,
        },
    }
}

pub open spec fn failure(msg: Seq<char>, span: Span) -> Stop {
    Stop::Fail(runtime_error(msg, span))
}

fn halt(msg: String, span: Span) -> (r: Halt)
    ensures
        r@ == failure(msg@, span),
{
    Halt::Fail(runtime_err(msg, span))
}

/// A result of plain computation, as a step that leaves the machine alone.
pub open spec fn pure_step(w: Owed, m: MachineView) -> Ran<ValueView> {
    match w {
        Ok(v) => Ok((v, m)),
        Err(e) => Err(Stop::Fail(e)),
    }
}

fn lift(r: Result<Value, Error>) -> (x: Result<Value, Halt>)
    ensures
        match r {
            Ok(v) => x == Ok::<Value, Halt>(v),
            Err(e) => x == Err::<Value, Halt>(Halt::Fail(e)),
        },
{
    match r {
        Ok(v) => Ok(v),
        Err(e) => Err(Halt::Fail(e)),
    }
}

/// The key under which a state is stored.
pub open spec fn root_key(name: Seq<char>) -> u128 {
    state_key(encode_utf8("main"@), encode_utf8(name))
}

fn state_cell(name: &str) -> (r: u128)
    ensures
        r == root_key(name@),
{
    state_root("main", name)
}

/// The type of a state.
pub open spec fn state_type(cx: Setting, name: Seq<char>) -> Option<Type> {
    match place(cx.module.states@, name) {
        Some(k) => Some(cx.module.states@[k].ty),
        None => None,
    }
}

fn find_state<'a>(cx: &Setting<'a>, name: &str) -> (r: Option<&'a Type>)
    ensures
        match state_type(*cx, name@) {
            Some(t) => r == Some(&t),
            None => r is None,
        },
{
    match find_last(&cx.module.states, name) {
        Some(k) => Some(&cx.module.states[k].ty),
        None => None,
    }
}

pub open spec fn pmap_root(v: ValueView) -> u128 {
    match v {
        ValueView::PMap(h) => h,
        _ => 0,
    }
}

pub open spec fn pbtree_root(v: ValueView) -> u128 {
    match v {
        ValueView::PBTree(h) => h,
        _ => 0,
    }
}

pub open spec fn pvec_parts(v: ValueView) -> (u64, u128) {
    match v {
        ValueView::PVec { len, root } => (len, root),
        _ => (0, 0),
    }
}

/// The root and the length of the collection of type `t` in a state.
pub open spec fn collection_root(t: Type, v: ValueView) -> (u128, u64) {
    match t {
        Type::PVec { elem } => (pvec_parts(v).1, pvec_parts(v).0),
        Type::PBTree { key, value } => (pbtree_root(v), 0),
        _ => (pmap_root(v), 0),
    }
}

/// Reads the root of the collection in a state.
pub open spec fn read_root(cx: Setting, m: MachineView, name: Seq<char>, t: Type) -> Ran<(u128, u64)> {
    match asked_value(cx, m, RequestView::ReadCell { cell: root_key(name), ty: type_view(t) }) {
        Err(s) => Err(s),
        Ok((v, m2)) => Ok((collection_root(t, v), m2)),
    }
}

fn get_root(cx: &Setting, m: &mut Machine, name: &str, t: &Type) -> (r: Result<(u128, u64), Halt>)
    ensures
        match read_root(*cx, old(m)@, name@, *t) {
            Ok((p, m2)) => final(m)@ == m2 && level(m2, old(m)@) && r == Ok::<(u128, u64), Halt>(p),
            Err(s) => match r {
                Ok(_) => false,
                Err(h) => h@ == s,
            },
        },
{
    let v = match ask_value(cx, m, Request::ReadCell { cell: state_cell(name), ty: t.copy() }) {
        Ok(v) => v,
        Err(h) => return Err(h),
    };
    Ok(
        match t {
            Type::PVec { elem: _ } => match v {
                Value::PVec { len, root } => (root, len),
                _ => (0, 0),
            },
            Type::PBTree { key: _, value: _ } => match v {
                Value::PBTree(h) => (h, 0),
                _ => (0, 0),
            },
            _ => match v {
                Value::PMap(h) => (h, 0),
                _ => (0, 0),
            },
        },
    )
}

/// An operation on a collection.
pub open spec fn on(op: Op, t: Type, root: u128, len: u64, args: Seq<ValueView>) -> RequestView {
    RequestView::On { op, ty: type_view(t), root, len, args }
}

fn request0(op: Op, t: &Type, root: u128, len: u64) -> (r: Request)
    ensures
        r@ == on(op, *t, root, len, seq![]),
{
    let args: Vec<Value> = Vec::new();
    assert(views(args@) =~= seq![]);
    Request::On { op, ty: t.copy(), root, len, args }
}

fn request1(op: Op, t: &Type, root: u128, len: u64, a: Value) -> (r: Request)
    ensures
        r@ == on(op, *t, root, len, seq![a@]),
{
    let mut args: Vec<Value> = Vec::new();
    let ghost x = a@;
    args.push(a);
    assert(views(args@) =~= seq![x]);
    Request::On { op, ty: t.copy(), root, len, args }
}

fn request2(op: Op, t: &Type, root: u128, len: u64, a: Value, b: Value) -> (r: Request)
    ensures
        r@ == on(op, *t, root, len, seq![a@, b@]),
{
    let mut args: Vec<Value> = Vec::new();
    let ghost x = a@;
    let ghost y = b@;
    args.push(a);
    args.push(b);
    assert(views(args@) =~= seq![x, y]);
    Request::On { op, ty: t.copy(), root, len, args }
}

/// The value for a root of a collection.
pub open spec fn root_value(t: Type, root: u128) -> ValueView {
    match t {
        Type::PBTree { key, value } => ValueView::PBTree(root),
        _ => ValueView::PMap(root),
    }
}

fn make_root_value(t: &Type, root: u128) -> (r: Value)
    ensures
        r@ == root_value(*t, root),
{
    match t {
        Type::PBTree { key: _, value: _ } => Value::PBTree(root),
        _ => Value::PMap(root),
    }
}

/// Follows a path of fields into a value.
pub open spec fn walk_path(path: Seq<String>, i: nat, v: ValueView, idx: IndexDecl) -> Owed
    decreases path.len() - i,
{
    if i >= path.len() {
        Ok(v)
    } else {
        match v {
            ValueView::Struct { name, fields } => match field_at(fields, path[i as int]@, 0) {
                Some(k) => walk_path(path, i + 1, fields[k].1, idx),
                None => Err(
                    runtime_error(
                        "index '"@ + idx.name@ + "': field '"@ + path[i as int]@
                            + "' missing on stored struct"@,
                        idx.span,
                    ),
                ),
            },
            _ => Err(
                runtime_error(
                    "index '"@ + idx.name@ + "': cannot project '"@ + path[i as int]@ + "' from "@ + shown(
                        v,
                    ),
                    idx.span,
                ),
            ),
        }
    }
}

fn walk_field_path(path: &Vec<String>, v: &Value, idx: &IndexDecl) -> (r: Result<Value, Error>)
    ensures
        gives(r, walk_path(path@, 0, v@, *idx)),
{
    let mut cur = v.copy();
    let mut i: usize = 0;
    while i < path.len()
        invariant
            i <= path@.len(),
            walk_path(path@, 0, v@, *idx) == walk_path(path@, i as nat, cur@, *idx),
        decreases path@.len() - i,
    {
        let field = path[i].as_str();
        let next = match &cur {
            Value::Struct { name: _, fields } => match find_field(fields, field) {
                Some(k) => {
                    assert(field_views(fields@)[k as int].1 == value_view(fields@[k as int].1));
                    fields[k].1.copy()
                },
                None => {
                    let mut m = concat3("index '", idx.name.as_str(), "': field '");
                    m.append(field);
                    m.append("' missing on stored struct");
                    return Err(runtime_err(m, idx.span));
                },
            },
            _ => {
                let mut m = concat3("index '", idx.name.as_str(), "': cannot project '");
                m.append(field);
                m.append("' from ");
                m.append(cur.to_string().as_str());
                return Err(runtime_err(m, idx.span));
            },
        };
        cur = next;
        i = i + 1;
    }
    Ok(cur)
}

/// The packed bytes of the components from the `i`-th on, after `acc`.
pub open spec fn packed_key(idx: IndexDecl, i: nat, v: ValueView, acc: Seq<u8>) -> Owed
    decreases idx.fields@.len() - i,
{
    if i >= idx.fields@.len() {
        Ok(ValueView::Bytes(acc))
    } else {
        match walk_path(idx.fields@[i as int].path@, 0, v, idx) {
            Err(e) => Err(e),
            Ok(part) => match builtin_gives("to_be_bytes"@, seq![part]) {
                Err(e) => Err(e),
                Ok(be) => match directed(idx.fields@[i as int].direction, be) {
                    Err(e) => Err(e),
                    Ok(ValueView::Bytes(b)) => packed_key(idx, i + 1, v, acc + b),
                    Ok(other) => Ok(other),
                },
            },
        }
    }
}

/// A component's bytes turned over where the order is descending.
pub open spec fn directed(d: SortDirection, be: ValueView) -> Owed {
    match d {
        SortDirection::Asc => Ok(be),
        SortDirection::Desc => builtin_gives("bit_not_bytes"@, seq![be]),
    }
}

/// The key of an index entry for a primary value: the one component as it is, or
/// several packed into bytes.
pub open spec fn index_key(idx: IndexDecl, v: ValueView) -> Owed {
    if idx.fields@.len() == 1 && idx.fields@[0].direction is Asc {
        walk_path(idx.fields@[0].path@, 0, v, idx)
    } else {
        packed_key(idx, 0, v, seq![])
    }
}

fn call1(name: &str, v: Value) -> (r: Result<Value, Error>)
    ensures
        gives(r, builtin_gives(name@, seq![v@])),
{
    let mut args: Vec<Value> = Vec::new();
    let ghost x = v@;
    args.push(v);
    assert(views(args@) =~= seq![x]);
    call_builtin(name, &args)
}

/// The key of an index entry for a primary value.
pub fn project_index_key(idx: &IndexDecl, v: &Value) -> (r: Result<Value, Error>)
    ensures
        gives(r, index_key(*idx, v@)),
{
    if idx.fields.len() == 1 && idx.fields[0].direction == SortDirection::Asc {
        return walk_field_path(&idx.fields[0].path, v, idx);
    }
    let mut packed: Vec<u8> = Vec::new();
    let mut i: usize = 0;
    assert(packed@ =~= seq![]);
    while i < idx.fields.len()
        invariant
            i <= idx.fields@.len(),
            packed_key(*idx, 0, v@, seq![]) == packed_key(*idx, i as nat, v@, packed@),
            index_key(*idx, v@) == packed_key(*idx, 0, v@, seq![]),
        decreases idx.fields@.len() - i,
    {
        let part = match walk_field_path(&idx.fields[i].path, v, idx) {
            Ok(x) => x,
            Err(e) => return Err(e),
        };
        let be = match call1("to_be_bytes", part) {
            Ok(x) => x,
            Err(e) => return Err(e),
        };
        let dir = match idx.fields[i].direction {
            SortDirection::Asc => be,
            SortDirection::Desc => match call1("bit_not_bytes", be) {
                Ok(x) => x,
                Err(e) => return Err(e),
            },
        };
        match dir {
            Value::Bytes(b) => crate::bytes::push_all(&mut packed, b.as_slice()),
            other => return Ok(other),
        }
        i = i + 1;
    }
    Ok(Value::Bytes(packed))
}

pub open spec fn is_keyed(t: Option<Type>) -> bool {
    match t {
        Some(Type::PMap { key, value }) => true,
        Some(Type::PBTree { key, value }) => true,
        _ => false,
    }
}

pub open spec fn clash(idx: IndexDecl, cur: ValueView, prior: ValueView, key: ValueView) -> Stop {
    failure(
        "unique constraint violation on '"@ + idx.name@ + "': key "@ + shown(cur) + " already maps to "@
            + shown(prior) + ", refused to remap to "@ + shown(key),
        idx.span,
    )
}

/// What an index entry held, as a list.
pub open spec fn as_list(v: Option<ValueView>) -> Seq<ValueView> {
    match v {
        Some(ValueView::Array(s)) => s,
        _ => seq![],
    }
}

/// Stores an entry of a keyed state and the state's new root.
pub open spec fn put_entry(
    cx: Setting,
    m: MachineView,
    name: Seq<char>,
    t: Type,
    root: u128,
    k: ValueView,
    v: ValueView,
) -> Ran<()> {
    match asked_root(cx, m, on(Op::Put, t, root, 0, seq![k, v])) {
        Err(s) => Err(s),
        Ok((h, m2)) => asked_done(
            cx,
            m2,
            RequestView::WriteCell { cell: root_key(name), value: root_value(t, h) },
        ),
    }
}

fn store_entry(cx: &Setting, m: &mut Machine, name: &str, t: &Type, root: u128, k: Value, v: Value) -> (r: Result<
    (),
    Halt,
>)
    ensures
        ran_unit(r, old(m)@, final(m)@, put_entry(*cx, old(m)@, name@, *t, root, k@, v@)),
{
    let h = match ask_root(cx, m, request2(Op::Put, t, root, 0, k, v)) {
        Ok(h) => h,
        Err(x) => return Err(x),
    };
    ask_done(cx, m, Request::WriteCell { cell: state_cell(name), value: make_root_value(t, h) })
}

/// Removes an entry of a keyed state and stores the state's new root.
pub open spec fn drop_entry(
    cx: Setting,
    m: MachineView,
    name: Seq<char>,
    t: Type,
    root: u128,
    k: ValueView,
) -> Ran<()> {
    match asked_root(cx, m, on(Op::Remove, t, root, 0, seq![k])) {
        Err(s) => Err(s),
        Ok((h, m2)) => asked_done(
            cx,
            m2,
            RequestView::WriteCell { cell: root_key(name), value: root_value(t, h) },
        ),
    }
}

fn remove_entry(cx: &Setting, m: &mut Machine, name: &str, t: &Type, root: u128, k: Value) -> (r: Result<(), Halt>)
    ensures
        ran_unit(r, old(m)@, final(m)@, drop_entry(*cx, old(m)@, name@, *t, root, k@)),
{
    let h = match ask_root(cx, m, request1(Op::Remove, t, root, 0, k)) {
        Ok(h) => h,
        Err(x) => return Err(x),
    };
    ask_done(cx, m, Request::WriteCell { cell: state_cell(name), value: make_root_value(t, h) })
}

/// Brings one index up to date after `key` was given `value`.
pub open spec fn indexed(cx: Setting, m: MachineView, idx: IndexDecl, key: ValueView, value: ValueView) -> Ran<()> {
    match index_key(idx, value) {
        Err(e) => Err(Stop::Fail(e)),
        Ok(cur) => if !is_keyed(state_type(cx, idx.name@)) {
            Err(failure("index '"@ + idx.name@ + "' is not a pmap/pbtree state at runtime"@, idx.span))
        } else {
            let t = state_type(cx, idx.name@)->0;
            match read_root(cx, m, idx.name@, t) {
                Err(s) => Err(s),
                Ok((p, m2)) => match asked_option(cx, m2, on(Op::Get, t, p.0, 0, seq![cur])) {
                    Err(s) => Err(s),
                    Ok((prior, m3)) => match idx.kind {
                        IndexKind::Unique => match prior {
                            Some(v) => if equal(v, key) {
                                Ok(((), m3))
                            } else {
                                Err(clash(idx, cur, v, key))
                            },
                            None => put_entry(cx, m3, idx.name@, t, p.0, cur, key),
                        },
                        IndexKind::Multi => if member_at(as_list(prior), key, 0) is Some {
                            Ok(((), m3))
                        } else {
                            put_entry(
                                cx,
                                m3,
                                idx.name@,
                                t,
                                p.0,
                                cur,
                                ValueView::Array(as_list(prior).push(key)),
                            )
                        },
                    },
                },
            }
        },
    }
}

/// Brings all indexes over a state up to date, from the `i`-th on.
pub open spec fn indexed_all(
    cx: Setting,
    m: MachineView,
    i: nat,
    state: Seq<char>,
    key: ValueView,
    value: ValueView,
) -> Ran<()>
    decreases cx.module.indexes@.len() - i,
{
    if i >= cx.module.indexes@.len() {
        Ok(((), m))
    } else if cx.module.indexes@[i as int].on_state@ != state {
        indexed_all(cx, m, i + 1, state, key, value)
    } else {
        match indexed(cx, m, cx.module.indexes@[i as int], key, value) {
            Err(s) => Err(s),
            Ok((u, m2)) => indexed_all(cx, m2, i + 1, state, key, value),
        }
    }
}

fn list_of(v: Option<Value>) -> (r: Vec<Value>)
    ensures
        views(r@) == as_list(match v {
            Some(x) => Some(value_view(x)),
            None => None,
        }),
{
    match v {
        Some(Value::Array(s)) => s,
        _ => {
            let r: Vec<Value> = Vec::new();
            assert(views(r@) =~= seq![]);
            r
        },
    }
}

fn clash_halt(idx: &IndexDecl, cur: &Value, prior: &Value, key: &Value) -> (r: Halt)
    ensures
        r@ == clash(*idx, cur@, prior@, key@),
{
    let mut m = concat3("unique constraint violation on '", idx.name.as_str(), "': key ");
    m.append(cur.to_string().as_str());
    m.append(" already maps to ");
    m.append(prior.to_string().as_str());
    m.append(", refused to remap to ");
    m.append(key.to_string().as_str());
    halt(m, idx.span)
}

fn keyed_state<'a>(cx: &Setting<'a>, idx: &IndexDecl) -> (r: Result<&'a Type, Halt>)
    ensures
        if is_keyed(state_type(*cx, idx.name@)) {
            r == Ok::<&Type, Halt>(&(state_type(*cx, idx.name@)->0))
        } else {
            match r {
                Ok(_) => false,
                Err(h) => h@ == failure(
                    "index '"@ + idx.name@ + "' is not a pmap/pbtree state at runtime"@,
                    idx.span,
                ),
            }
        },
{
    match find_state(cx, idx.name.as_str()) {
        Some(t) => match t {
            Type::PMap { key: _, value: _ } => return Ok(t),
            Type::PBTree { key: _, value: _ } => return Ok(t),
            _ => {},
        },
        None => {},
    }
    Err(
        halt(
            concat3("index '", idx.name.as_str(), "' is not a pmap/pbtree state at runtime"),
            idx.span,
        ),
    )
}

fn maintain_index(cx: &Setting, m: &mut Machine, idx: &IndexDecl, key: &Value, value: &Value) -> (r: Result<(), Halt>)
    ensures
        ran_unit(r, old(m)@, final(m)@, indexed(*cx, old(m)@, *idx, key@, value@)),
{
    let cur = match project_index_key(idx, value) {
        Ok(x) => x,
        Err(e) => return Err(Halt::Fail(e)),
    };
    let t = match keyed_state(cx, idx) {
        Ok(t) => t,
        Err(h) => return Err(h),
    };
    let name = idx.name.as_str();
    let (root, _) = match get_root(cx, m, name, t) {
        Ok(p) => p,
        Err(h) => return Err(h),
    };
    let prior = match ask_option(cx, m, request1(Op::Get, t, root, 0, cur.copy())) {
        Ok(p) => p,
        Err(h) => return Err(h),
    };
    match idx.kind {
        IndexKind::Unique => match prior {
            Some(v) => if v.same(key) {
                Ok(())
            } else {
                Err(clash_halt(idx, &cur, &v, key))
            },
            None => store_entry(cx, m, name, t, root, cur, key.copy()),
        },
        IndexKind::Multi => {
            let mut list = list_of(prior);
            let ghost before = views(list@);
            if find_member(&list, key).is_some() {
                Ok(())
            } else {
                list.push(key.copy());
                assert(views(list@) =~= before.push(key@));
                store_entry(cx, m, name, t, root, cur, Value::Array(list))
            }
        },
    }
}

fn maintain_indexes(cx: &Setting, m: &mut Machine, state: &str, key: &Value, value: &Value) -> (r: Result<(), Halt>)
    ensures
        ran_unit(r, old(m)@, final(m)@, indexed_all(*cx, old(m)@, 0, state@, key@, value@)),
{
    let ghost m0 = m@;
    let mut i: usize = 0;
    while i < cx.module.indexes.len()
        invariant
            i <= cx.module.indexes@.len(),
            level(m@, m0),
            m0 == old(m)@,
            indexed_all(*cx, m0, 0, state@, key@, value@) == indexed_all(
                *cx,
                m@,
                i as nat,
                state@,
                key@,
                value@,
            ),
        decreases cx.module.indexes@.len() - i,
    {
        let idx = &cx.module.indexes[i];
        if same(idx.on_state.as_str(), state) {
            match maintain_index(cx, m, idx, key, value) {
                Ok(_) => {},
                Err(h) => return Err(h),
            }
        }
        i = i + 1;
    }
    Ok(())
}

/// Takes `key` out of one index after its value was deleted.
pub open spec fn unindexed(cx: Setting, m: MachineView, idx: IndexDecl, key: ValueView, value: ValueView) -> Ran<()> {
    match index_key(idx, value) {
        Err(e) => Err(Stop::Fail(e)),
        Ok(cur) => if !is_keyed(state_type(cx, idx.name@)) {
            Err(failure("index '"@ + idx.name@ + "' is not a pmap/pbtree state at runtime"@, idx.span))
        } else {
            let t = state_type(cx, idx.name@)->0;
            match read_root(cx, m, idx.name@, t) {
                Err(s) => Err(s),
                Ok((p, m2)) => match asked_option(cx, m2, on(Op::Get, t, p.0, 0, seq![cur])) {
                    Err(s) => Err(s),
                    Ok((prior, m3)) => match idx.kind {
                        IndexKind::Unique => match prior {
                            Some(v) => if equal(v, key) {
                                drop_entry(cx, m3, idx.name@, t, p.0, cur)
                            } else {
                                Ok(((), m3))
                            },
                            None => Ok(((), m3)),
                        },
                        IndexKind::Multi => match prior {
                            Some(ValueView::Array(s)) => {
                                let kept = without_member(s, key, s.len());
                                if kept.len() == 0 {
                                    drop_entry(cx, m3, idx.name@, t, p.0, cur)
                                } else {
                                    put_entry(cx, m3, idx.name@, t, p.0, cur, ValueView::Array(kept))
                                }
                            },
                            _ => Ok(((), m3)),
                        },
                    },
                },
            }
        },
    }
}

pub open spec fn unindexed_all(
    cx: Setting,
    m: MachineView,
    i: nat,
    state: Seq<char>,
    key: ValueView,
    value: ValueView,
) -> Ran<()>
    decreases cx.module.indexes@.len() - i,
{
    if i >= cx.module.indexes@.len() {
        Ok(((), m))
    } else if cx.module.indexes@[i as int].on_state@ != state {
        unindexed_all(cx, m, i + 1, state, key, value)
    } else {
        match unindexed(cx, m, cx.module.indexes@[i as int], key, value) {
            Err(s) => Err(s),
            Ok((u, m2)) => unindexed_all(cx, m2, i + 1, state, key, value),
        }
    }
}

fn unmaintain_index(cx: &Setting, m: &mut Machine, idx: &IndexDecl, key: &Value, value: &Value) -> (r: Result<
    (),
    Halt,
>)
    ensures
        ran_unit(r, old(m)@, final(m)@, unindexed(*cx, old(m)@, *idx, key@, value@)),
{
    let cur = match project_index_key(idx, value) {
        Ok(x) => x,
        Err(e) => return Err(Halt::Fail(e)),
    };
    let t = match keyed_state(cx, idx) {
        Ok(t) => t,
        Err(h) => return Err(h),
    };
    let name = idx.name.as_str();
    let (root, _) = match get_root(cx, m, name, t) {
        Ok(p) => p,
        Err(h) => return Err(h),
    };
    let prior = match ask_option(cx, m, request1(Op::Get, t, root, 0, cur.copy())) {
        Ok(p) => p,
        Err(h) => return Err(h),
    };
    match idx.kind {
        IndexKind::Unique => match prior {
            Some(v) => if v.same(key) {
                remove_entry(cx, m, name, t, root, cur)
            } else {
                Ok(())
            },
            None => Ok(()),
        },
        IndexKind::Multi => match prior {
            Some(Value::Array(s)) => {
                assert(views(s@).len() == s@.len());
                let kept = remove_member(&s, key);
                assert(views(kept@).len() == kept@.len());
                if kept.len() == 0 {
                    remove_entry(cx, m, name, t, root, cur)
                } else {
                    store_entry(cx, m, name, t, root, cur, Value::Array(kept))
                }
            },
            _ => Ok(()),
        },
    }
}

fn unmaintain_indexes(cx: &Setting, m: &mut Machine, state: &str, key: &Value, value: &Value) -> (r: Result<
    (),
    Halt,
>)
    ensures
        ran_unit(r, old(m)@, final(m)@, unindexed_all(*cx, old(m)@, 0, state@, key@, value@)),
{
    let ghost m0 = m@;
    let mut i: usize = 0;
    while i < cx.module.indexes.len()
        invariant
            i <= cx.module.indexes@.len(),
            level(m@, m0),
            m0 == old(m)@,
            unindexed_all(*cx, m0, 0, state@, key@, value@) == unindexed_all(
                *cx,
                m@,
                i as nat,
                state@,
                key@,
                value@,
            ),
        decreases cx.module.indexes@.len() - i,
    {
        let idx = &cx.module.indexes[i];
        if same(idx.on_state.as_str(), state) {
            match unmaintain_index(cx, m, idx, key, value) {
                Ok(_) => {},
                Err(h) => return Err(h),
            }
        }
        i = i + 1;
    }
    Ok(())
}

/// The number of a place in a persistent vector.
pub open spec fn vec_index(v: ValueView, span: Span) -> Result<u64, ErrorView> {
    match v {
        ValueView::Int(n) => if 0 <= n <= u64::MAX {
            Ok(n as u64)
        } else {
            Err(runtime_error("pvec index out of u64 range: "@ + decimal_int(n), span))
        },
        _ => Err(runtime_error("pvec index: expected non-negative int, got "@ + shown(v), span)),
    }
}

fn to_vec_index(v: &Value, span: Span) -> (r: Result<u64, Error>)
    ensures
        match vec_index(v@, span) {
            Ok(n) => r == Ok::<u64, Error>(n),
            Err(x) => match r {
                Ok(_) => false,
                Err(e) => e@ == x,
            },
        },
{
    match v {
        Value::Int(n) => match n.to_u64() {
            Some(k) => Ok(k),
            None => Err(
                runtime_err(concat2("pvec index out of u64 range: ", n.to_string().as_str()), span),
            ),
        },
        _ => Err(
            runtime_err(
                concat2("pvec index: expected non-negative int, got ", v.to_string().as_str()),
                span,
            ),
        ),
    }
}

/// The cell of a map entry.
pub open spec fn map_cell(cx: Setting, m: MachineView, root: u128, key: ValueView) -> Ran<u128> {
    if !key_value(key) {
        Err(failure("map key value not keyable: "@ + shown(key), no_span()))
    } else {
        match asked_bytes(cx, m, RequestView::Encode { value: key }) {
            Err(s) => Err(s),
            Ok((b, m2)) => Ok((child_key(root, b), m2)),
        }
    }
}

fn compose_map_key(cx: &Setting, m: &mut Machine, root: u128, key: &Value) -> (r: Result<u128, Halt>)
    ensures
        match map_cell(*cx, old(m)@, root, key@) {
            Ok((c, m2)) => final(m)@ == m2 && level(m2, old(m)@) && r == Ok::<u128, Halt>(c),
            Err(s) => match r {
                Ok(_) => false,
                Err(h) => h@ == s,
            },
        },
{
    if !is_keyable_value(key) {
        return Err(
            halt(concat2("map key value not keyable: ", key.to_string().as_str()), Span::default()),
        );
    }
    let b = match ask_bytes(cx, m, Request::Encode { value: key.copy() }) {
        Ok(b) => b,
        Err(h) => return Err(h),
    };
    Ok(child(root, b.as_slice()))
}

/// An element of an array.
pub open spec fn array_item(a: ValueView, k: ValueView, span: Span) -> Owed {
    match (a, k) {
        (ValueView::Array(s), ValueView::Int(i)) => if 0 <= i < s.len() {
            Ok(s[i])
        } else {
            Err(
                runtime_error(
                    "array index out of bounds: "@ + decimal_int(i) + " of "@ + decimal(s.len()),
                    span,
                ),
            )
        },
        _ => Err(runtime_error("can't index "@ + shown(a) + " with "@ + shown(k), span)),
    }
}

fn get_array_item(a: &Value, k: &Value, span: Span) -> (r: Result<Value, Error>)
    ensures
        gives(r, array_item(a@, k@, span)),
{
    match (a, k) {
        (Value::Array(s), Value::Int(i)) => {
            assert(views(s@).len() == s@.len());
            match i.to_u64() {
                Some(n) => if n < s.len() as u64 {
                    assert(views(s@)[n as int] == value_view(s@[n as int]));
                    return Ok(s[n as usize].copy());
                },
                None => {},
            }
            assert(s@.len() == s.len());
            let mut m = concat3("array index out of bounds: ", i.to_string().as_str(), " of ");
            push_decimal(&mut m, s.len() as u128);
            Err(runtime_err(m, span))
        },
        _ => {
            let mut m = concat3("can't index ", a.to_string().as_str(), " with ");
            m.append(k.to_string().as_str());
            Err(runtime_err(m, span))
        },
    }
}

/// A field of a struct.
pub open spec fn struct_field(v: ValueView, name: Seq<char>, at: Span, span: Span) -> Owed {
    match v {
        ValueView::Struct { name: n, fields } => match field_at(fields, name, 0) {
            Some(k) => Ok(fields[k].1),
            None => Err(runtime_error("no field '"@ + name + "'"@, span)),
        },
        _ => Err(runtime_error("field access on non-struct"@, at)),
    }
}

fn get_struct_field(v: &Value, name: &str, at: Span, span: Span) -> (r: Result<Value, Error>)
    ensures
        gives(r, struct_field(v@, name@, at, span)),
{
    match v {
        Value::Struct { name: _, fields } => match find_field(fields, name) {
            Some(k) => {
                assert(field_views(fields@)[k as int].1 == value_view(fields@[k as int].1));
                Ok(fields[k].1.copy())
            },
            None => Err(runtime_err(concat3("no field '", name, "'"), span)),
        },
        _ => Err(runtime_err(text("field access on non-struct"), at)),
    }
}

/// A part of a tuple.
pub open spec fn tuple_item(v: ValueView, i: nat, at: Span, span: Span) -> Owed {
    match v {
        ValueView::Tuple(s) => if i < s.len() {
            Ok(s[i as int])
        } else {
            Err(
                runtime_error(
                    "tuple index "@ + decimal(i) + " out of bounds (len "@ + decimal(s.len()) + ")"@,
                    span,
                ),
            )
        },
        _ => Err(runtime_error("tuple index on non-tuple: "@ + shown(v), at)),
    }
}

fn get_tuple_item(v: &Value, i: usize, at: Span, span: Span) -> (r: Result<Value, Error>)
    ensures
        gives(r, tuple_item(v@, i as nat, at, span)),
{
    match v {
        Value::Tuple(s) => {
            assert(views(s@).len() == s@.len());
            if i < s.len() {
                assert(views(s@)[i as int] == value_view(s@[i as int]));
                Ok(s[i].copy())
            } else {
                let mut m = concat_num("tuple index ", i as u128, " out of bounds (len ");
                push_decimal(&mut m, s.len() as u128);
                m.append(")");
                Err(runtime_err(m, span))
            }
        },
        _ => Err(
            runtime_err(concat2("tuple index on non-tuple: ", v.to_string().as_str()), at),
        ),
    }
}

/// The state and the fields that an expression names, from the outside in, if it
/// is a path into a state; the names are found from the inside out.
pub open spec fn state_path(cx: Setting, m: MachineView, e: Expr, rest: Seq<Seq<char>>) -> Option<
    (Seq<char>, Seq<Seq<char>>),
>
    decreases e,
{
    match e.kind {
        ExprKind::Field { target, name } => state_path(cx, m, *target, seq![name@] + rest),
        ExprKind::Ident(name) => if inner_scope(m.scopes, name@) is Some || state_type(cx, name@) is None {
            None
        } else {
            Some((name@, rest))
        },
        _ => None,
    }
}

/// The type of a field of a struct type.
pub open spec fn field_type(t: Type, name: Seq<char>) -> Option<Type> {
    match t {
        Type::Struct { name: n, fields, field_groups } => match first_place(fields@, name) {
            Some(k) => Some(fields@[k].1),
            None => None,
        },
        _ => None,
    }
}

pub(crate) fn find_field_type<'a>(t: &'a Type, name: &str) -> (r: Option<&'a Type>)
    ensures
        match field_type(*t, name@) {
            Some(f) => r == Some(&f),
            None => r is None,
        },
{
    match t {
        Type::Struct { name: _, fields, field_groups: _ } => match find_first(fields, name) {
            Some(k) => Some(&fields[k].1),
            None => None,
        },
        _ => None,
    }
}

/// The group of a field of a struct type.
pub open spec fn field_group(t: Type, name: Seq<char>) -> Option<Seq<char>> {
    match t {
        Type::Struct { name: n, fields, field_groups } => match first_place(fields@, name) {
            Some(k) => group_of(field_groups@, k),
            None => None,
        },
        _ => None,
    }
}

pub(crate) fn is_grouped(t: &Type, name: &str) -> (r: bool)
    ensures
        r == (field_group(*t, name@) is Some),
{
    match t {
        Type::Struct { name: _, fields, field_groups } => match find_first(fields, name) {
            Some(k) => k < field_groups.len() && field_groups[k].is_some(),
            None => false,
        },
        _ => false,
    }
}

/// The key and the type of the cell at the end of a path of fields, from the `i`-th
/// on. A field that shares a cell with the rest of its group has none of its own, nor
/// has anything inside it: such a part of a state is read and written with the struct
/// that holds it, whose type says how its fields lie in cells.
pub open spec fn path_end(t: Type, key: u128, path: Seq<Seq<char>>, i: nat) -> Option<(u128, Type)>
    decreases path.len() - i,
{
    if i >= path.len() {
        Some((key, t))
    } else {
        match field_type(t, path[i as int]) {
            Some(f) => if field_group(t, path[i as int]) is Some {
                None
            } else {
                path_end(f, child_key(key, encode_utf8(path[i as int])), path, i + 1)
            },
            None => None,
        }
    }
}

/// The key and the type of the part of a state that an expression names, if it
/// names one.
pub open spec fn state_place(cx: Setting, m: MachineView, e: Expr) -> Option<(u128, Type)> {
    match state_path(cx, m, e, seq![]) {
        None => None,
        Some((name, path)) => path_end(state_type(cx, name)->0, root_key(name), path, 0),
    }
}

/// The key and the type of the part of a state that an expression names.
fn find_state_place<'a>(cx: &Setting<'a>, m: &Machine, e: &Expr) -> (r: Option<(u128, &'a Type)>)
    ensures
        match state_place(*cx, m@, *e) {
            Some((k, t)) => match r {
                Some(p) => p.0 == k && *p.1 == t,
                None => false,
            },
            None => r is None,
        },
{
    match collect_path(cx, m, e) {
        None => None,
        Some((t, state, path)) => {
            let ghost names = texts_of(path@);
            let ghost name = state@;
            let mut key: u128 = state_cell(state.as_str());
            let mut ty: &'a Type = t;
            let mut i: usize = 0;
            while i < path.len()
                invariant
                    i <= path@.len(),
                    names == texts_of(path@),
                    state_place(*cx, m@, *e) == path_end(*t, root_key(name), names, 0),
                    path_end(*t, root_key(name), names, 0) == path_end(*ty, key, names, i as nat),
                decreases path@.len() - i,
            {
                let step = path[i].as_str();
                if is_grouped(ty, step) {
                    return None;
                }
                ty = match find_field_type(ty, step) {
                    Some(f) => f,
                    None => return None,
                };
                key = child(key, step.as_bytes());
                i = i + 1;
            }
            Some((key, ty))
        },
    }
}

pub open spec fn texts_of(s: Seq<String>) -> Seq<Seq<char>> {
    Seq::new(s.len(), |i: int| s[i]@)
}

/// The type of the state that a path names, and the fields of the path.
fn collect_path<'a>(cx: &Setting<'a>, m: &Machine, e: &Expr) -> (r: Option<(&'a Type, String, Vec<String>)>)
    ensures
        match state_path(*cx, m@, *e, seq![]) {
            Some((name, path)) => match r {
                Some(p) => p.1@ == name && texts_of(p.2@) == path && state_type(*cx, name) == Some(*p.0),
                None => false,
            },
            None => r is None,
        },
{
    let none: Vec<String> = Vec::new();
    assert(texts_of(none@) =~= seq![]);
    collect_from(cx, m, e, none)
}

fn collect_from<'a>(cx: &Setting<'a>, m: &Machine, e: &Expr, rest: Vec<String>) -> (r: Option<
    (&'a Type, String, Vec<String>),
>)
    ensures
        match state_path(*cx, m@, *e, texts_of(rest@)) {
            Some((name, path)) => match r {
                Some(p) => p.1@ == name && texts_of(p.2@) == path && state_type(*cx, name) == Some(*p.0),
                None => false,
            },
            None => r is None,
        },
    decreases e,
{
    match &e.kind {
        ExprKind::Field { target, name } => {
            let mut path: Vec<String> = Vec::new();
            path.push(name.clone());
            let ghost r0 = texts_of(rest@);
            let mut tail = rest;
            path.append(&mut tail);
            assert(texts_of(path@) =~= seq![name@] + r0);
            collect_from(cx, m, target, path)
        },
        ExprKind::Ident(name) => {
            if m.find_inner(name.as_str()).is_some() {
                return None;
            }
            match find_state(cx, name.as_str()) {
                Some(t) => Some((t, name.clone(), rest)),
                None => None,
            }
        },
        _ => None,
    }
}

/// The names of the fields of a struct or a capability.
pub open spec fn decl_fields(cx: Setting, name: Seq<char>) -> Option<Seq<StructField>> {
    match place(cx.module.caps@, name) {
        Some(k) => Some(cx.module.caps@[k].fields@),
        None => match place(cx.module.structs@, name) {
            Some(k) => Some(cx.module.structs@[k].fields@),
            None => None,
        },
    }
}

fn find_decl<'a>(cx: &Setting<'a>, name: &str) -> (r: Option<&'a Vec<StructField>>)
    ensures
        match decl_fields(*cx, name@) {
            Some(s) => match r {
                Some(v) => v@ == s,
                None => false,
            },
            None => r is None,
        },
{
    match find_last(&cx.module.caps, name) {
        Some(k) => Some(&cx.module.caps[k].fields),
        None => match find_last(&cx.module.structs, name) {
            Some(k) => Some(&cx.module.structs[k].fields),
            None => None,
        },
    }
}

/// What the collection builtins expect, by their names.
pub open spec fn expectation(name: Seq<char>) -> Option<Seq<char>> {
    if name == "set_insert"@ {
        Some("set_insert() expects (set, elem)"@)
    } else if name == "set_remove"@ {
        Some("set_remove() expects (set, elem)"@)
    } else if name == "set_contains"@ {
        Some("set_contains() expects (set, elem)"@)
    } else if name == "set_len"@ {
        Some("set_len() expects (set)"@)
    } else if name == "dict_set"@ {
        Some("dict_set() expects (dict, key, value)"@)
    } else if name == "dict_remove"@ {
        Some("dict_remove() expects (dict, key)"@)
    } else if name == "dict_get"@ {
        Some("dict_get() expects (dict, key, default)"@)
    } else if name == "dict_has"@ {
        Some("dict_has() expects (dict, key)"@)
    } else if name == "dict_len"@ {
        Some("dict_len() expects (dict)"@)
    } else {
        None
    }
}

fn find_expectation(name: &str) -> (r: Option<String>)
    ensures
        match expectation(name@) {
            Some(s) => match r {
                Some(x) => x@ == s,
                None => false,
            },
            None => r is None,
        },
{
    if same(name, "set_insert") {
        Some(text("set_insert() expects (set, elem)"))
    } else if same(name, "set_remove") {
        Some(text("set_remove() expects (set, elem)"))
    } else if same(name, "set_contains") {
        Some(text("set_contains() expects (set, elem)"))
    } else if same(name, "set_len") {
        Some(text("set_len() expects (set)"))
    } else if same(name, "dict_set") {
        Some(text("dict_set() expects (dict, key, value)"))
    } else if same(name, "dict_remove") {
        Some(text("dict_remove() expects (dict, key)"))
    } else if same(name, "dict_get") {
        Some(text("dict_get() expects (dict, key, default)"))
    } else if same(name, "dict_has") {
        Some(text("dict_has() expects (dict, key)"))
    } else if same(name, "dict_len") {
        Some(text("dict_len() expects (dict)"))
    } else {
        None
    }
}

/// The builtins that mean here what they mean elsewhere.
pub open spec fn shared_builtin(name: Seq<char>) -> bool {
    name == "to_bytes"@
        || name == "bytes_len"@
        || name == "bytes_concat"@
        || name == "bytes_eq"@
        || name == "bytes_slice"@
        || name == "to_be_bytes"@
        || name == "bit_not_bytes"@
        || name == "string_concat"@
        || name == "string_slice"@
        || name == "string_contains"@
        || name == "assert"@
        || name == "sum"@
        || name == "max"@
        || name == "min"@
        || name == "parse_json"@
        || name == "json_stringify"@
        || name == "json_get_field"@
        || name == "json_get_index"@
        || name == "json_to_string"@
        || name == "json_to_i64"@
        || name == "json_to_u64"@
        || name == "json_to_bool"@
        || name == "json_is_null"@
}

fn is_shared_builtin(name: &str) -> (r: bool)
    ensures
        r == shared_builtin(name@),
{
    same(name, "to_bytes")
        || same(name, "bytes_len")
        || same(name, "bytes_concat")
        || same(name, "bytes_eq")
        || same(name, "bytes_slice")
        || same(name, "to_be_bytes")
        || same(name, "bit_not_bytes")
        || same(name, "string_concat")
        || same(name, "string_slice")
        || same(name, "string_contains")
        || same(name, "assert")
        || same(name, "sum")
        || same(name, "max")
        || same(name, "min")
        || same(name, "parse_json")
        || same(name, "json_stringify")
        || same(name, "json_get_field")
        || same(name, "json_get_index")
        || same(name, "json_to_string")
        || same(name, "json_to_i64")
        || same(name, "json_to_u64")
        || same(name, "json_to_bool")
        || same(name, "json_is_null")
}

/// The integer type that a conversion converts to.
pub open spec fn conversion_target(name: Seq<char>) -> Option<u8> {
    if name == "i64"@ {
        Some(0u8)
    } else if name == "i32"@ {
        Some(1u8)
    } else if name == "u32"@ {
        Some(2u8)
    } else if name == "u64"@ {
        Some(3u8)
    } else if name == "u128"@ {
        Some(4u8)
    } else {
        None
    }
}

fn find_conversion(name: &str) -> (r: Option<u8>)
    ensures
        r == conversion_target(name@),
{
    if same(name, "i64") {
        Some(0)
    } else if same(name, "i32") {
        Some(1)
    } else if same(name, "u32") {
        Some(2)
    } else if same(name, "u64") {
        Some(3)
    } else if same(name, "u128") {
        Some(4)
    } else {
        None
    }
}

/// The number of elements of a value that has some.
pub open spec fn length_gives(args: Seq<ValueView>) -> Owed {
    let wrong: Owed = Err(runtime_error("len() expects array/string/set/dict"@, no_span()));
    if args.len() != 1 {
        wrong
    } else {
        match args[0] {
            ValueView::Array(s) => Ok(ValueView::Int(s.len() as int)),
            ValueView::Str(s) => Ok(ValueView::Int(encode_utf8(s).len() as int)),
            ValueView::SetOf(s) => Ok(ValueView::Int(s.len() as int)),
            ValueView::Dict(s) => Ok(ValueView::Int(s.len() as int)),
            _ => wrong,
        }
    }
}

fn size_value(n: usize) -> (r: Value)
    ensures
        r@ == ValueView::Int(n as int),
{
    Value::Int(BigInt::from_u128(n as u128))
}

fn call_len(args: &Vec<Value>) -> (r: Result<Value, Error>)
    ensures
        gives(r, length_gives(views(args@))),
{
    assert(views(args@).len() == args@.len());
    if args.len() == 1 {
        match &args[0] {
            Value::Array(s) => {
                assert(views(s@).len() == s@.len());
                return Ok(size_value(s.len()));
            },
            Value::Str(s) => {
                let b = s.as_str().as_bytes();
                assert(b.len() == b@.len());
                return Ok(size_value(b.len()));
            },
            Value::SetOf(s) => {
                assert(views(s@).len() == s@.len());
                return Ok(size_value(s.len()));
            },
            Value::Dict(s) => {
                assert(pair_views(s@).len() == s@.len());
                return Ok(size_value(s.len()));
            },
            _ => {},
        }
    }
    Err(runtime_err(text("len() expects array/string/set/dict"), Span::default()))
}

/// `resource(n)`
pub open spec fn resource_gives(args: Seq<ValueView>) -> Owed {
    let wrong: Owed = Err(runtime_error("resource() expects a single int"@, no_span()));
    if args.len() != 1 {
        wrong
    } else {
        match args[0] {
            ValueView::Int(n) => if i64::MIN <= n <= i64::MAX {
                Ok(ValueView::Resource(n as i64))
            } else {
                Err(runtime_error("resource(): int out of i64 range"@, no_span()))
            },
            _ => wrong,
        }
    }
}

fn call_resource(args: &Vec<Value>) -> (r: Result<Value, Error>)
    ensures
        gives(r, resource_gives(views(args@))),
{
    assert(views(args@).len() == args@.len());
    if args.len() == 1 {
        match &args[0] {
            Value::Int(n) => return match n.to_i64() {
                Some(k) => Ok(Value::Resource(k)),
                None => Err(runtime_err(text("resource(): int out of i64 range"), Span::default())),
            },
            _ => {},
        }
    }
    Err(runtime_err(text("resource() expects a single int"), Span::default()))
}

/// `unwrap(r)`
pub open spec fn unwrap_gives(args: Seq<ValueView>) -> Owed {
    let wrong: Owed = Err(runtime_error("unwrap() expects a single Resource"@, no_span()));
    if args.len() != 1 {
        wrong
    } else {
        match args[0] {
            ValueView::Resource(n) => Ok(ValueView::Int(n as int)),
            _ => wrong,
        }
    }
}

fn call_unwrap(args: &Vec<Value>) -> (r: Result<Value, Error>)
    ensures
        gives(r, unwrap_gives(views(args@))),
{
    assert(views(args@).len() == args@.len());
    if args.len() == 1 {
        match &args[0] {
            Value::Resource(n) => return Ok(Value::of_int(*n)),
            _ => {},
        }
    }
    Err(runtime_err(text("unwrap() expects a single Resource"), Span::default()))
}

/// `address(s)`
pub open spec fn address_gives(args: Seq<ValueView>) -> Owed {
    let wrong: Owed = Err(runtime_error("address() expects a single string"@, no_span()));
    if args.len() != 1 {
        wrong
    } else {
        match args[0] {
            ValueView::Str(s) => Ok(ValueView::Address(s)),
            _ => wrong,
        }
    }
}

fn call_address(args: &Vec<Value>) -> (r: Result<Value, Error>)
    ensures
        gives(r, address_gives(views(args@))),
{
    assert(views(args@).len() == args@.len());
    if args.len() == 1 {
        match &args[0] {
            Value::Str(s) => return Ok(Value::Address(s.clone())),
            _ => {},
        }
    }
    Err(runtime_err(text("address() expects a single string"), Span::default()))
}

/// A builtin that takes no arguments.
pub open spec fn nullary(name: Seq<char>, args: Seq<ValueView>, v: ValueView) -> Owed {
    if args.len() != 0 {
        Err(runtime_error(name + "() takes no arguments"@, no_span()))
    } else {
        Ok(v)
    }
}

fn call_nullary(name: &str, args: &Vec<Value>, v: Value) -> (r: Result<Value, Error>)
    ensures
        gives(r, nullary(name@, views(args@), v@)),
{
    assert(views(args@).len() == args@.len());
    if args.len() != 0 {
        Err(runtime_err(concat2(name, "() takes no arguments"), Span::default()))
    } else {
        Ok(v)
    }
}

/// What a builtin gives in a run, if the name is that of one.
pub open spec fn run_builtin(cx: Setting, name: Seq<char>, args: Seq<ValueView>) -> Option<Owed> {
    if name == "resource"@ {
        Some(resource_gives(args))
    } else if name == "unwrap"@ {
        Some(unwrap_gives(args))
    } else if name == "address"@ {
        Some(address_gives(args))
    } else if name == "len"@ {
        Some(length_gives(args))
    } else if name == "msg_sender"@ {
        Some(nullary(name, args, value_view(*cx.sender)))
    } else if name == "block_timestamp"@ {
        Some(nullary(name, args, ValueView::U64(cx.block_timestamp)))
    } else if name == "block_number"@ {
        Some(nullary(name, args, ValueView::U64(cx.block_number)))
    } else if shared_builtin(name) {
        Some(builtin_gives(name, args))
    } else {
        match expectation(name) {
            Some(s) => Some(
                match builtin_gives(name, args) {
                    Ok(v) => Ok(v),
                    Err(_) => Err(runtime_error(s, no_span())),
                },
            ),
            None => match conversion_target(name) {
                Some(t) => if args.len() != 1 {
                    Some(Err(runtime_error(name + "() takes one argument"@, no_span())))
                } else {
                    Some(conversion(args[0], t, no_span()))
                },
                None => None,
            },
        }
    }
}

/// Calls a builtin, if the name is that of one.
pub fn try_builtin(cx: &Setting, name: &str, args: &Vec<Value>) -> (r: Result<Option<Value>, Error>)
    ensures
        match run_builtin(*cx, name@, views(args@)) {
            None => r matches Ok(o) && o is None,
            Some(Ok(v)) => match r {
                Ok(Some(x)) => x@ == v,
                _ => false,
            },
            Some(Err(x)) => match r {
                Ok(_) => false,
                Err(e) => e@ == x,
            },
        },
{
    assert(views(args@).len() == args@.len());
    let out = if same(name, "resource") {
        call_resource(args)
    } else if same(name, "unwrap") {
        call_unwrap(args)
    } else if same(name, "address") {
        call_address(args)
    } else if same(name, "len") {
        call_len(args)
    } else if same(name, "msg_sender") {
        call_nullary(name, args, cx.sender.copy())
    } else if same(name, "block_timestamp") {
        call_nullary(name, args, Value::U64(cx.block_timestamp))
    } else if same(name, "block_number") {
        call_nullary(name, args, Value::U64(cx.block_number))
    } else if is_shared_builtin(name) {
        call_builtin(name, args)
    } else {
        match find_expectation(name) {
            Some(s) => match call_builtin(name, args) {
                Ok(v) => Ok(v),
                Err(_) => Err(runtime_err(s, Span::default())),
            },
            None => match find_conversion(name) {
                Some(t) => if args.len() != 1 {
                    Err(runtime_err(concat2(name, "() takes one argument"), Span::default()))
                } else {
                    convert(&args[0], t, Span::default())
                },
                None => return Ok(None),
            },
        }
    };
    match out {
        Ok(v) => Ok(Some(v)),
        Err(e) => Err(e),
    }
}

pub open spec fn with_params(m: MachineView, params: Seq<Param>, vs: Seq<ValueView>, n: nat) -> MachineView
    decreases n,
    when n <= params.len() && n <= vs.len()
{
    if n == 0 {
        m
    } else {
        with_local(with_params(m, params, vs, (n - 1) as nat), params[n - 1].name@, vs[n - 1])
    }
}

fn bind_params(m: &mut Machine, params: &Vec<Param>, vs: &Vec<Value>)
    requires
        old(m)@.scopes.len() > 0,
        params@.len() == vs@.len(),
    ensures
        final(m)@ == with_params(old(m)@, params@, views(vs@), params@.len()),
        final(m)@.scopes.len() == old(m)@.scopes.len(),
        final(m)@.pipe == old(m)@.pipe,
        final(m)@.entered == old(m)@.entered,
{
    let ghost m0 = m@;
    let ghost s = views(vs@);
    let mut i: usize = 0;
    while i < params.len()
        invariant
            i <= params@.len() == vs@.len(),
            s == views(vs@),
            m@.scopes.len() == m0.scopes.len(),
            m@.pipe == m0.pipe,
            m@.entered == m0.entered,
            m0.scopes.len() > 0,
            m@ == with_params(m0, params@, s, i as nat),
        decreases params@.len() - i,
    {
        m.bind(params[i].name.as_str(), vs[i].copy());
        i = i + 1;
    }
}

/// The machine inside a call of the `k`-th function: a scope of its own.
pub open spec fn inside(cx: Setting, m: MachineView, k: int, args: Seq<ValueView>) -> MachineView {
    let f = cx.module.functions@[k];
    with_params(
        MachineView {
            scopes: seq![Map::empty()],
            entered: if f.is_nore { m.entered.push(k as usize) } else { m.entered },
            ..m
        },
        f.params@,
        args,
        f.params@.len(),
    )
}

/// The machine after a call: the caller's scopes again.
pub open spec fn after_call(cx: Setting, m: MachineView, k: int, inner: MachineView) -> MachineView {
    MachineView {
        scopes: m.scopes,
        entered: if cx.module.functions@[k].is_nore { inner.entered.drop_last() } else { inner.entered },
        ..inner
    }
}

/// Whether a function of the module hides the builtin of its name.
pub open spec fn overrides(cx: Setting, name: Seq<char>) -> bool {
    (name == "sum"@ || name == "max"@ || name == "min"@) && first_place(cx.module.functions@, name) is Some
}

/// The first arm that takes a variant, from the `i`-th on.
pub open spec fn arm_at(arms: Seq<MatchArm>, variant: Seq<char>, i: nat) -> Option<int>
    decreases arms.len() - i,
{
    if i >= arms.len() {
        None
    } else if arm_takes(arms[i as int].pattern, variant) {
        Some(i as int)
    } else {
        arm_at(arms, variant, i + 1)
    }
}

pub open spec fn arm_takes(p: MatchPattern, variant: Seq<char>) -> bool {
    match p {
        MatchPattern::Wildcard => true,
        MatchPattern::EnumVariant { enum_name, variant: v, bindings } => v@ == variant,
    }
}

fn find_arm(arms: &Vec<MatchArm>, variant: &str) -> (r: Option<usize>)
    ensures
        match r {
            Some(k) => arm_at(arms@, variant@, 0) == Some(k as int) && k < arms@.len(),
            None => arm_at(arms@, variant@, 0) is None,
        },
{
    let mut i: usize = 0;
    while i < arms.len()
        invariant
            i <= arms@.len(),
            arm_at(arms@, variant@, 0) == arm_at(arms@, variant@, i as nat),
        decreases arms@.len() - i,
    {
        let takes = match &arms[i].pattern {
            MatchPattern::Wildcard => true,
            MatchPattern::EnumVariant { enum_name: _, variant: v, bindings: _ } => same(
                v.as_str(),
                variant,
            ),
        };
        if takes {
            return Some(i);
        }
        i = i + 1;
    }
    None
}

/// The machine inside an arm: a scope with the bound parts of the payload.
pub open spec fn in_arm(m: MachineView, p: MatchPattern, payload: Seq<ValueView>) -> MachineView {
    match p {
        MatchPattern::Wildcard => opened(m),
        MatchPattern::EnumVariant { enum_name, variant, bindings } => with_locals(
            opened(m),
            bindings@,
            payload,
            if bindings@.len() <= payload.len() { bindings@.len() } else { payload.len() },
        ),
    }
}

fn enter_arm(m: &mut Machine, p: &MatchPattern, payload: &Vec<Value>)
    ensures
        final(m)@ == in_arm(old(m)@, *p, views(payload@)),
        final(m)@.scopes.len() == old(m)@.scopes.len() + 1,
        final(m)@.pipe.len() == old(m)@.pipe.len(),
        final(m)@.entered == old(m)@.entered,
{
    m.open();
    let ghost m1 = m@;
    assert(views(payload@).len() == payload@.len());
    match p {
        MatchPattern::Wildcard => {},
        MatchPattern::EnumVariant { enum_name: _, variant: _, bindings } => {
            let n: usize = if bindings.len() <= payload.len() {
                bindings.len()
            } else {
                payload.len()
            };
            m.bind_all(bindings, payload, n);
            proof {
                lemma_locals_keep_pipe(m1, bindings@, views(payload@), n as nat);
            }
        },
    }
}

proof fn lemma_locals_keep_pipe(m: MachineView, names: Seq<String>, vs: Seq<ValueView>, n: nat)
    requires
        n <= names.len(),
        n <= vs.len(),
    ensures
        with_locals(m, names, vs, n).pipe == m.pipe,
        with_locals(m, names, vs, n).entered == m.entered,
    decreases n,
{
    if n > 0 {
        lemma_locals_keep_pipe(m, names, vs, (n - 1) as nat);
    }
}

/// An integer of a range's type.
pub open spec fn range_value(kind: int, n: int) -> ValueView {
    if kind == 0 {
        ValueView::Int(n)
    } else if kind == 1 {
        ValueView::U64(n as u64)
    } else if kind == 2 {
        ValueView::I32(n as i32)
    } else if kind == 3 {
        ValueView::U32(n as u32)
    } else {
        ValueView::U128(n as u128)
    }
}

/// The type and the bounds of a range.
pub open spec fn range_bounds(a: ValueView, b: ValueView) -> Option<(int, int, int)> {
    match (a, b) {
        (ValueView::Int(x), ValueView::Int(y)) => Some((0, x, y)),
        (ValueView::U64(x), ValueView::U64(y)) => Some((1, x as int, y as int)),
        (ValueView::I32(x), ValueView::I32(y)) => Some((2, x as int, y as int)),
        (ValueView::U32(x), ValueView::U32(y)) => Some((3, x as int, y as int)),
        (ValueView::U128(x), ValueView::U128(y)) => Some((4, x as int, y as int)),
        _ => None,
    }
}

pub open spec fn in_kind(kind: int, n: int) -> bool {
    if kind == 0 {
        true
    } else if kind == 1 {
        0 <= n <= u64::MAX
    } else if kind == 2 {
        i32::MIN <= n <= i32::MAX
    } else if kind == 3 {
        0 <= n <= u32::MAX
    } else {
        kind == 4 && 0 <= n <= u128::MAX
    }
}

fn find_bounds(a: &Value, b: &Value) -> (r: Option<(u8, BigInt, BigInt)>)
    ensures
        match range_bounds(a@, b@) {
            Some((k, x, y)) => match r {
                Some(p) => p.0 == k && p.1@ == x && p.2@ == y && in_kind(k, x) && in_kind(k, y),
                None => false,
            },
            None => r is None,
        },
{
    match (a, b) {
        (Value::Int(x), Value::Int(y)) => Some((0, x.copy(), y.copy())),
        (Value::U64(x), Value::U64(y)) => Some(
            (1, BigInt::from_u128(*x as u128), BigInt::from_u128(*y as u128)),
        ),
        (Value::I32(x), Value::I32(y)) => Some(
            (2, BigInt::from_i64(*x as i64), BigInt::from_i64(*y as i64)),
        ),
        (Value::U32(x), Value::U32(y)) => Some(
            (3, BigInt::from_u128(*x as u128), BigInt::from_u128(*y as u128)),
        ),
        (Value::U128(x), Value::U128(y)) => Some((4, BigInt::from_u128(*x), BigInt::from_u128(*y))),
        _ => None,
    }
}

fn make_range_value(kind: u8, n: &BigInt) -> (r: Value)
    requires
        in_kind(kind as int, n@),
    ensures
        r@ == range_value(kind as int, n@),
{
    if kind == 0 {
        Value::Int(n.copy())
    } else if kind == 2 {
        match n.to_i64() {
            Some(k) => Value::I32(k as i32),
            None => Value::I32(0),
        }
    } else {
        match n.to_u128() {
            Some(k) => if kind == 1 {
                Value::U64(k as u64)
            } else if kind == 3 {
                Value::U32(k as u32)
            } else {
                Value::U128(k)
            },
            None => Value::Unit,
        }
    }
}

/// The values of a struct's fields.
pub open spec fn field_values(s: Seq<(Seq<char>, ValueView)>) -> Seq<ValueView> {
    Seq::new(s.len(), |i: int| s[i].1)
}

fn get_field_values(v: &Vec<(String, Value)>) -> (r: Vec<Value>)
    ensures
        views(r@) == field_values(field_views(v@)),
{
    let mut r: Vec<Value> = Vec::new();
    let mut i: usize = 0;
    while i < v.len()
        invariant
            i <= v@.len(),
            r@.len() == i,
            forall|j: int| 0 <= j < i ==> value_view(#[trigger] r@[j]) == value_view(v@[j].1),
        decreases v@.len() - i,
    {
        r.push(v[i].1.copy());
        i = i + 1;
    }
    assert(views(r@) =~= field_values(field_views(v@)));
    r
}

/// The values of a collection's entries.
pub open spec fn entry_values(s: Seq<(ValueView, ValueView)>) -> Seq<ValueView> {
    Seq::new(s.len(), |i: int| s[i].1)
}

pub open spec fn entry_keys(s: Seq<(ValueView, ValueView)>) -> Seq<ValueView> {
    Seq::new(s.len(), |i: int| s[i].0)
}

pub open spec fn entry_tuples(s: Seq<(ValueView, ValueView)>) -> Seq<ValueView> {
    Seq::new(s.len(), |i: int| ValueView::Tuple(seq![s[i].0, s[i].1]))
}

fn get_entry_values(v: &Vec<(Value, Value)>) -> (r: Vec<Value>)
    ensures
        views(r@) == entry_values(pair_views(v@)),
{
    let mut r: Vec<Value> = Vec::new();
    let mut i: usize = 0;
    while i < v.len()
        invariant
            i <= v@.len(),
            r@.len() == i,
            forall|j: int| 0 <= j < i ==> value_view(#[trigger] r@[j]) == value_view(v@[j].1),
        decreases v@.len() - i,
    {
        r.push(v[i].1.copy());
        i = i + 1;
    }
    assert(views(r@) =~= entry_values(pair_views(v@)));
    r
}

fn get_entry_keys(v: &Vec<(Value, Value)>) -> (r: Vec<Value>)
    ensures
        views(r@) == entry_keys(pair_views(v@)),
{
    let mut r: Vec<Value> = Vec::new();
    let mut i: usize = 0;
    while i < v.len()
        invariant
            i <= v@.len(),
            r@.len() == i,
            forall|j: int| 0 <= j < i ==> value_view(#[trigger] r@[j]) == value_view(v@[j].0),
        decreases v@.len() - i,
    {
        r.push(v[i].0.copy());
        i = i + 1;
    }
    assert(views(r@) =~= entry_keys(pair_views(v@)));
    r
}

fn pair_tuple(a: Value, b: Value) -> (r: Value)
    ensures
        value_view(r) == ValueView::Tuple(seq![value_view(a), value_view(b)]),
{
    let ghost x = value_view(a);
    let ghost y = value_view(b);
    let mut parts: Vec<Value> = Vec::new();
    parts.push(a);
    parts.push(b);
    assert(views(parts@) =~= seq![x, y]);
    Value::Tuple(parts)
}

fn get_entry_tuples(v: &Vec<(Value, Value)>) -> (r: Vec<Value>)
    ensures
        views(r@) == entry_tuples(pair_views(v@)),
{
    let mut r: Vec<Value> = Vec::new();
    let mut i: usize = 0;
    while i < v.len()
        invariant
            i <= v@.len(),
            r@.len() == i,
            forall|j: int|
                0 <= j < i ==> value_view(#[trigger] r@[j]) == ValueView::Tuple(
                    seq![value_view(v@[j].0), value_view(v@[j].1)],
                ),
        decreases v@.len() - i,
    {
        r.push(pair_tuple(v[i].0.copy(), v[i].1.copy()));
        i = i + 1;
    }
    assert(views(r@) =~= entry_tuples(pair_views(v@)));
    r
}

/// The collection builtins that take a state: none, a vector, a map or an
/// ordered map.
pub open spec fn state_builtin(name: Seq<char>) -> int {
    if name == "pvec_push"@ || name == "pvec_len"@ || name == "pvec_to_array"@ {
        1
    } else if name == "pmap_contains"@ || name == "pmap_entries"@ || name == "pmap_keys"@ || name
        == "pmap_values"@ {
        2
    } else if name == "pbtree_contains"@ || name == "pbtree_range"@ {
        3
    } else {
        0
    }
}

pub(crate) fn find_state_builtin(name: &str) -> (r: u8)
    ensures
        r == state_builtin(name@),
{
    if same(name, "pvec_push") || same(name, "pvec_len") || same(name, "pvec_to_array") {
        1
    } else if same(name, "pmap_contains") || same(name, "pmap_entries") || same(name, "pmap_keys") || same(
        name,
        "pmap_values",
    ) {
        2
    } else if same(name, "pbtree_contains") || same(name, "pbtree_range") {
        3
    } else {
        0
    }
}

pub open spec fn collection_name(kind: int) -> Seq<char> {
    if kind == 1 {
        "pvec"@
    } else if kind == 2 {
        "pmap"@
    } else {
        "pbtree"@
    }
}

fn collection_text(kind: u8) -> (r: &'static str)
    ensures
        r@ == collection_name(kind as int),
{
    if kind == 1 {
        "pvec"
    } else if kind == 2 {
        "pmap"
    } else {
        "pbtree"
    }
}

pub open spec fn is_collection(kind: int, t: Type) -> bool {
    match t {
        Type::PVec { elem } => kind == 1,
        Type::PMap { key, value } => kind == 2,
        Type::PBTree { key, value } => kind == 3,
        _ => false,
    }
}

/// The state that a collection builtin is called on.
pub open spec fn state_argument(cx: Setting, name: Seq<char>, args: Seq<Expr>, span: Span) -> Result<
    (Seq<char>, Type),
    ErrorView,
> {
    let kind = state_builtin(name);
    if args.len() == 0 || !(args[0].kind is Ident) {
        Err(
            runtime_error(
                name + "() arg 0 must be a "@ + collection_name(kind) + " state"@,
                span,
            ),
        )
    } else {
        let state = args[0].kind->Ident_0@;
        match state_type(cx, state) {
            None => Err(runtime_error("'"@ + state + "' is not a state"@, span)),
            Some(t) => if is_collection(kind, t) {
                Ok((state, t))
            } else {
                Err(runtime_error("'"@ + state + "' is not a "@ + collection_name(kind), span))
            },
        }
    }
}

fn find_state_argument<'a, 'b>(cx: &Setting<'a>, name: &str, args: &'b Vec<Expr>, span: Span) -> (r: Result<
    (&'b String, &'a Type),
    Error,
>)
    ensures
        match state_argument(*cx, name@, args@, span) {
            Ok((s, t)) => match r {
                Ok(p) => p.0@ == s && *p.1 == t,
                Err(_) => false,
            },
            Err(x) => match r {
                Ok(_) => false,
                Err(e) => e@ == x,
            },
        },
{
    let kind: u8 = find_state_builtin(name);
    if args.len() > 0 {
        match &args[0].kind {
            ExprKind::Ident(state) => {
                let t = match find_state(cx, state.as_str()) {
                    Some(t) => t,
                    None => return Err(
                        runtime_err(concat3("'", state.as_str(), "' is not a state"), span),
                    ),
                };
                let fits = match t {
                    Type::PVec { elem: _ } => kind == 1,
                    Type::PMap { key: _, value: _ } => kind == 2,
                    Type::PBTree { key: _, value: _ } => kind == 3,
                    _ => false,
                };
                if fits {
                    return Ok((state, t));
                }
                let mut m = concat3("'", state.as_str(), "' is not a ");
                m.append(collection_text(kind));
                return Err(runtime_err(m, span));
            },
            _ => {},
        }
    }
    let mut m = concat3(name, "() arg 0 must be a ", collection_text(kind));
    m.append(" state");
    Err(runtime_err(m, span))
}

/// Whether a handler takes an event.
pub open spec fn handles(h: HandlerDecl, name: Seq<char>, module: Seq<char>) -> bool {
    h.event_type@ == name && match h.event_module {
        Some(m) => m@ == module,
        None => true,
    }
}

fn does_handle(h: &HandlerDecl, name: &str, module: &str) -> (r: bool)
    ensures
        r == handles(*h, name@, module@),
{
    same(h.event_type.as_str(), name) && match &h.event_module {
        Some(m) => same(m.as_str(), module),
        None => true,
    }
}

/// The name of the running module.
pub open spec fn module_name(cx: Setting) -> Seq<char> {
    match cx.module.name {
        Some(n) => n@,
        None => "main"@,
    }
}

fn find_module_name(cx: &Setting) -> (r: String)
    ensures
        r@ == module_name(*cx),
{
    match &cx.module.name {
        Some(n) => n.clone(),
        None => text("main"),
    }
}

// What the parts of a program owe. Every step down takes one unit of fuel, and so
// does every round of a `while`; the rounds of a loop over elements or over a range
// are bounded by what they go over and take none of their own.

/// An expression.
pub open spec fn eval_of(cx: Setting, fuel: nat, e: Expr, m: MachineView) -> Ran<ValueView>
    decreases fuel, 0nat,
{
    if fuel == 0 {
        Err(Stop::OutOfFuel)
    } else {
        let f = (fuel - 1) as nat;
        match e.kind {
            ExprKind::Int(n) => Ok((ValueView::Int(n@), m)),
            ExprKind::UInt(n) => Ok((ValueView::UInt(n@), m)),
            ExprKind::Float(n) => Ok((ValueView::Float(n), m)),
            ExprKind::JsonNull => Ok((ValueView::Json(JsonView::Null), m)),
            ExprKind::I32(n) => Ok((ValueView::I32(n), m)),
            ExprKind::U32(n) => Ok((ValueView::U32(n), m)),
            ExprKind::U64(n) => Ok((ValueView::U64(n), m)),
            ExprKind::U128(n) => Ok((ValueView::U128(n), m)),
            ExprKind::Bool(b) => Ok((ValueView::Bool(b), m)),
            ExprKind::Str(s) => Ok((ValueView::Str(s@), m)),
            ExprKind::JsonObject(ps) => object_of(cx, f, ps@, 0, seq![], m),
            ExprKind::JsonArray(es) => match evals_of(cx, f, es@, 0, seq![], m) {
                Err(s) => Err(s),
                Ok((vs, m)) => Ok((ValueView::Json(JsonView::Array(vs)), m)),
            },
            ExprKind::Ident(name) => lookup_of(cx, f, name@, e.span, m),
            ExprKind::Binary { op, lhs, rhs } => match eval_of(cx, f, *lhs, m) {
                Err(s) => Err(s),
                Ok((l, m)) => match eval_of(cx, f, *rhs, m) {
                    Err(s) => Err(s),
                    Ok((r, m)) => pure_step(binary(op, l, r, e.span), m),
                },
            },
            ExprKind::Unary { op, operand } => match eval_of(cx, f, *operand, m) {
                Err(s) => Err(s),
                Ok((v, m)) => pure_step(unary(op, v, e.span), m),
            },
            ExprKind::Index { target, key } => index_of(cx, f, *target, *key, e.span, m),
            ExprKind::Array(es) => match evals_of(cx, f, es@, 0, seq![], m) {
                Err(s) => Err(s),
                Ok((vs, m)) => Ok((ValueView::Array(vs), m)),
            },
            ExprKind::StructLit { name, fields } => match decl_fields(cx, name@) {
                None => Err(failure("unknown struct '"@ + name@ + "'"@, e.span)),
                Some(decl) => struct_of(cx, f, decl, 0, name@, fields@, e.span, seq![], m),
            },
            ExprKind::Field { target, name } => match state_place(cx, m, e) {
                Some((k, t)) => asked_value(cx, m, RequestView::Read { key: k, ty: type_view(t) }),
                None => match eval_of(cx, f, *target, m) {
                    Err(s) => Err(s),
                    Ok((v, m)) => pure_step(struct_field(v, name@, target.span, e.span), m),
                },
            },
            ExprKind::Prev => if m.pipe.len() > 0 {
                Ok((m.pipe.last(), m))
            } else {
                Err(failure("$$ used outside of a pipe stage"@, e.span))
            },
            ExprKind::Pipe { head, step } => match eval_of(cx, f, *head, m) {
                Err(s) => Err(s),
                Ok((v, m)) => match eval_of(cx, f, *step, with_pipe(m, v)) {
                    Err(s) => Err(s),
                    Ok((r, m)) => Ok((r, without_pipe(m))),
                },
            },
            ExprKind::SetLit(es) => set_of(cx, f, es@, 0, seq![], m),
            ExprKind::DictLit(ps) => dict_of(cx, f, ps@, 0, seq![], m),
            ExprKind::ListComp { mapper, clauses } => comp_of(
                cx,
                f,
                e,
                clauses@,
                0,
                ValueView::Array(seq![]),
                m,
            ),
            ExprKind::SetComp { mapper, clauses } => comp_of(
                cx,
                f,
                e,
                clauses@,
                0,
                ValueView::SetOf(seq![]),
                m,
            ),
            ExprKind::DictComp { key, value, clauses } => comp_of(
                cx,
                f,
                e,
                clauses@,
                0,
                ValueView::Dict(seq![]),
                m,
            ),
            ExprKind::DynCall { target_ident, method, args, method_is_view, method_is_pure } => match lookup_of(
                cx,
                f,
                target_ident@,
                e.span,
                m,
            ) {
                Err(s) => Err(s),
                Ok((v, m)) => Err(dyn_failure(target_ident@, v, e.span)),
            },
            ExprKind::Call { module, name, args } => if module is None && state_builtin(name@) != 0 {
                state_call_of(cx, f, name@, args@, e.span, m)
            } else {
                match evals_of(cx, f, args@, 0, seq![], m) {
                    Err(s) => Err(s),
                    Ok((vs, m)) => if module is Some {
                        Err(
                            failure(
                                "tree-walk interp does not support cross-module calls; use Engine::execute_main"@,
                                e.span,
                            ),
                        )
                    } else {
                        call_of(cx, f, name@, vs, m)
                    },
                }
            },
            ExprKind::TupleLit(es) => match evals_of(cx, f, es@, 0, seq![], m) {
                Err(s) => Err(s),
                Ok((vs, m)) => Ok((ValueView::Tuple(vs), m)),
            },
            ExprKind::TupleIndex { target, index } => match eval_of(cx, f, *target, m) {
                Err(s) => Err(s),
                Ok((v, m)) => pure_step(tuple_item(v, index as nat, target.span, e.span), m),
            },
            ExprKind::EnumCtor { enum_name, variant, args } => match evals_of(cx, f, args@, 0, seq![], m) {
                Err(s) => Err(s),
                Ok((vs, m)) => Ok(
                    (ValueView::Enum { enum_name: enum_name@, variant: variant@, payload: vs }, m),
                ),
            },
            ExprKind::Match { scrut, arms } => match eval_of(cx, f, *scrut, m) {
                Err(s) => Err(s),
                Ok((v, m)) => match v {
                    ValueView::Enum { enum_name, variant, payload } => match arm_at(arms@, variant, 0) {
                        None => Err(failure("no arm matched variant '"@ + variant + "'"@, e.span)),
                        Some(k) => match eval_of(
                            cx,
                            f,
                            arms@[k].body,
                            in_arm(m, arms@[k].pattern, payload),
                        ) {
                            Err(s) => Err(s),
                            Ok((r, m)) => Ok((r, closed(m))),
                        },
                    },
                    _ => Err(failure("match on non-enum: "@ + shown(v), scrut.span)),
                },
            },
            ExprKind::Block(b) => block_value_of(cx, f, b, e.span, m),
            ExprKind::If { cond, then_block, else_branch } => if_value_of(
                cx,
                f,
                *cond,
                then_block,
                else_branch,
                e.span,
                m,
            ),
        }
    }
}

/// A call through an interface, which only the engine can make.
pub open spec fn dyn_failure(ident: Seq<char>, v: ValueView, span: Span) -> Stop {
    match v {
        ValueView::Interface { iface, target_module } => if target_module.len() == 0 {
            failure(
                "interface '"@ + ident
                    + "' is unbound — call IFace::bind(\"module_name\") before dispatch"@,
                span,
            )
        } else {
            failure(
                "tree-walk interp does not support dynamic dispatch (target '"@ + target_module
                    + "'); use Engine::execute_*"@,
                span,
            )
        },
        _ => failure("dynamic dispatch on non-interface value: "@ + shown(v), span),
    }
}

fn dyn_halt(ident: &str, v: &Value, span: Span) -> (r: Halt)
    ensures
        r@ == dyn_failure(ident@, v@, span),
{
    match v {
        Value::Interface { iface: _, target_module } => {
            let n: usize = target_module.as_str().unicode_len();
            if n == 0 {
                halt(
                    concat3(
                        "interface '",
                        ident,
                        "' is unbound — call IFace::bind(\"module_name\") before dispatch",
                    ),
                    span,
                )
            } else {
                halt(
                    concat3(
                        "tree-walk interp does not support dynamic dispatch (target '",
                        target_module.as_str(),
                        "'); use Engine::execute_*",
                    ),
                    span,
                )
            }
        },
        _ => halt(
            concat2("dynamic dispatch on non-interface value: ", v.to_string().as_str()),
            span,
        ),
    }
}

/// Expressions in a row, from the `i`-th on, after `acc`.
pub open spec fn evals_of(cx: Setting, fuel: nat, s: Seq<Expr>, i: nat, acc: Seq<ValueView>, m: MachineView) -> Ran<
    Seq<ValueView>,
>
    decreases fuel, s.len() - i,
{
    if fuel == 0 {
        Err(Stop::OutOfFuel)
    } else if i >= s.len() {
        Ok((acc, m))
    } else {
        match eval_of(cx, (fuel - 1) as nat, s[i as int], m) {
            Err(x) => Err(x),
            Ok((v, m)) => evals_of(cx, fuel, s, i + 1, acc.push(v), m),
        }
    }
}

/// The entries of a JSON object, from the `i`-th on, after `acc`.
pub open spec fn object_of(
    cx: Setting,
    fuel: nat,
    s: Seq<(String, Expr)>,
    i: nat,
    acc: Seq<(Seq<char>, ValueView)>,
    m: MachineView,
) -> Ran<ValueView>
    decreases fuel, s.len() - i,
{
    if fuel == 0 {
        Err(Stop::OutOfFuel)
    } else if i >= s.len() {
        Ok((ValueView::Json(JsonView::Object(acc)), m))
    } else {
        match eval_of(cx, (fuel - 1) as nat, s[i as int].1, m) {
            Err(x) => Err(x),
            Ok((v, m)) => object_of(cx, fuel, s, i + 1, crate::json::put(acc, s[i as int].0@, v), m),
        }
    }
}

/// The fields of a struct in the order of its declaration, from the `i`-th on.
pub open spec fn struct_of(
    cx: Setting,
    fuel: nat,
    decl: Seq<StructField>,
    i: nat,
    name: Seq<char>,
    given: Seq<(String, Expr)>,
    span: Span,
    acc: Seq<(Seq<char>, ValueView)>,
    m: MachineView,
) -> Ran<ValueView>
    decreases fuel, decl.len() - i,
{
    if fuel == 0 {
        Err(Stop::OutOfFuel)
    } else if i >= decl.len() {
        Ok((ValueView::Struct { name, fields: acc }, m))
    } else {
        match first_place(given, decl[i as int].name@) {
            None => Err(
                failure(
                    "missing field '"@ + decl[i as int].name@ + "' in struct '"@ + name + "'"@,
                    span,
                ),
            ),
            Some(k) => match eval_of(cx, (fuel - 1) as nat, given[k].1, m) {
                Err(x) => Err(x),
                Ok((v, m)) => struct_of(
                    cx,
                    fuel,
                    decl,
                    i + 1,
                    name,
                    given,
                    span,
                    acc.push((decl[i as int].name@, v)),
                    m,
                ),
            },
        }
    }
}

/// The members of a set, from the `i`-th on, after `acc`.
pub open spec fn set_of(cx: Setting, fuel: nat, s: Seq<Expr>, i: nat, acc: Seq<ValueView>, m: MachineView) -> Ran<
    ValueView,
>
    decreases fuel, s.len() - i,
{
    if fuel == 0 {
        Err(Stop::OutOfFuel)
    } else if i >= s.len() {
        Ok((ValueView::SetOf(acc), m))
    } else {
        match eval_of(cx, (fuel - 1) as nat, s[i as int], m) {
            Err(x) => Err(x),
            Ok((v, m)) => set_of(cx, fuel, s, i + 1, with_member(acc, v), m),
        }
    }
}

/// The entries of a dict, from the `i`-th on, after `acc`.
pub open spec fn dict_of(
    cx: Setting,
    fuel: nat,
    s: Seq<(Expr, Expr)>,
    i: nat,
    acc: Seq<(ValueView, ValueView)>,
    m: MachineView,
) -> Ran<ValueView>
    decreases fuel, s.len() - i,
{
    if fuel == 0 {
        Err(Stop::OutOfFuel)
    } else if i >= s.len() {
        Ok((ValueView::Dict(acc), m))
    } else {
        match eval_of(cx, (fuel - 1) as nat, s[i as int].0, m) {
            Err(x) => Err(x),
            Ok((k, m)) => match eval_of(cx, (fuel - 1) as nat, s[i as int].1, m) {
                Err(x) => Err(x),
                Ok((v, m)) => dict_of(cx, fuel, s, i + 1, with_entry(acc, k, v), m),
            },
        }
    }
}

/// An indexed expression: an entry of a state, or an element of an array.
pub open spec fn index_of(cx: Setting, fuel: nat, target: Expr, key: Expr, span: Span, m: MachineView) -> Ran<ValueView>
    decreases fuel, 0nat,
{
    if fuel == 0 {
        Err(Stop::OutOfFuel)
    } else {
        let f = (fuel - 1) as nat;
        let state = match target.kind {
            ExprKind::Ident(name) => name@,
            _ => seq![],
        };
        let t = match target.kind {
            ExprKind::Ident(name) => state_type(cx, name@),
            _ => None,
        };
        match t {
            Some(Type::MapOf { key: kt, value: vt }) => match eval_of(cx, f, key, m) {
                Err(x) => Err(x),
                Ok((k, m)) => match map_cell(cx, m, root_key(state), k) {
                    Err(x) => Err(x),
                    Ok((c, m)) => asked_value(
                        cx,
                        m,
                        RequestView::ReadCell { cell: c, ty: type_view(*vt) },
                    ),
                },
            },
            Some(Type::PVec { elem }) => match eval_of(cx, f, key, m) {
                Err(x) => Err(x),
                Ok((k, m)) => match vec_index(k, span) {
                    Err(e) => Err(Stop::Fail(e)),
                    Ok(i) => match read_root(cx, m, state, t->0) {
                        Err(x) => Err(x),
                        Ok((p, m)) => asked_value(
                            cx,
                            m,
                            on(Op::Get, t->0, p.0, p.1, seq![ValueView::U64(i)]),
                        ),
                    },
                },
            },
            Some(Type::PMap { key: kt, value: vt }) => match eval_of(cx, f, key, m) {
                Err(x) => Err(x),
                Ok((k, m)) => entry_of(cx, m, state, t->0, *vt, k),
            },
            Some(Type::PBTree { key: kt, value: vt }) => match eval_of(cx, f, key, m) {
                Err(x) => Err(x),
                Ok((k, m)) => entry_of(cx, m, state, t->0, *vt, k),
            },
            _ => match eval_of(cx, f, target, m) {
                Err(x) => Err(x),
                Ok((a, m)) => match eval_of(cx, f, key, m) {
                    Err(x) => Err(x),
                    Ok((k, m)) => pure_step(array_item(a, k, span), m),
                },
            },
        }
    }
}

/// The value under a key of a keyed state, or the default of its type.
pub open spec fn entry_of(cx: Setting, m: MachineView, state: Seq<char>, t: Type, vt: Type, k: ValueView) -> Ran<
    ValueView,
> {
    match read_root(cx, m, state, t) {
        Err(x) => Err(x),
        Ok((p, m)) => match asked_option(cx, m, on(Op::Get, t, p.0, 0, seq![k])) {
            Err(x) => Err(x),
            Ok((v, m)) => Ok(
                (
                    match v {
                        Some(x) => x,
                        None => default_value(vt),
                    },
                    m,
                ),
            ),
        },
    }
}

fn get_entry(cx: &Setting, m: &mut Machine, state: &str, t: &Type, vt: &Type, k: Value) -> (r: Result<Value, Halt>)
    ensures
        ran(r, old(m)@, final(m)@, entry_of(*cx, old(m)@, state@, *t, *vt, k@)),
{
    let (root, _) = match get_root(cx, m, state, t) {
        Ok(p) => p,
        Err(h) => return Err(h),
    };
    match ask_option(cx, m, request1(Op::Get, t, root, 0, k)) {
        Ok(Some(v)) => Ok(v),
        Ok(None) => Ok(default_for(vt)),
        Err(h) => Err(h),
    }
}

/// A name: a local, a state, or a constant, whose value is computed with no local
/// in sight.
pub open spec fn lookup_of(cx: Setting, fuel: nat, name: Seq<char>, span: Span, m: MachineView) -> Ran<ValueView>
    decreases fuel, 0nat,
{
    if fuel == 0 {
        Err(Stop::OutOfFuel)
    } else {
        match local(m, name) {
            Some(v) => Ok((v, m)),
            None => match state_type(cx, name) {
                Some(t) => asked_value(
                    cx,
                    m,
                    RequestView::Read { key: root_key(name), ty: type_view(t) },
                ),
                None => match first_place(cx.module.consts@, name) {
                    Some(k) => match eval_of(
                        cx,
                        (fuel - 1) as nat,
                        cx.module.consts@[k].value,
                        without_locals(m),
                    ) {
                        Err(x) => Err(x),
                        Ok((v, after)) => Ok((v, MachineView { scopes: m.scopes, ..after })),
                    },
                    None => Err(failure("undefined variable '"@ + name + "'"@, span)),
                },
            },
        }
    }
}

/// What a loop goes over: the values of a collection state, or a value.
pub open spec fn iter_of(cx: Setting, fuel: nat, e: Expr, m: MachineView) -> Ran<ValueView>
    decreases fuel, 0nat,
{
    if fuel == 0 {
        Err(Stop::OutOfFuel)
    } else {
        let state = match e.kind {
            ExprKind::Ident(name) => name@,
            _ => seq![],
        };
        let t = match e.kind {
            ExprKind::Ident(name) => state_type(cx, name@),
            _ => None,
        };
        if is_keyed(t) {
            match read_root(cx, m, state, t->0) {
                Err(x) => Err(x),
                Ok((p, m)) => match asked_entries(cx, m, on(Op::Entries, t->0, p.0, 0, seq![])) {
                    Err(x) => Err(x),
                    Ok((s, m)) => Ok((ValueView::Array(entry_values(s)), m)),
                },
            }
        } else {
            match t {
                Some(Type::PVec { elem }) => match read_root(cx, m, state, t->0) {
                    Err(x) => Err(x),
                    Ok((p, m)) => match asked_values(cx, m, on(Op::ToVec, t->0, p.0, p.1, seq![])) {
                        Err(x) => Err(x),
                        Ok((s, m)) => Ok((ValueView::Array(s), m)),
                    },
                },
                _ => eval_of(cx, (fuel - 1) as nat, e, m),
            }
        }
    }
}

/// A call of a builtin on a collection state.
pub open spec fn state_call_of(
    cx: Setting,
    fuel: nat,
    name: Seq<char>,
    args: Seq<Expr>,
    span: Span,
    m: MachineView,
) -> Ran<ValueView>
    decreases fuel, 0nat,
{
    if fuel == 0 {
        Err(Stop::OutOfFuel)
    } else {
        let f = (fuel - 1) as nat;
        match state_argument(cx, name, args, span) {
            Err(e) => Err(Stop::Fail(e)),
            Ok((state, t)) => match read_root(cx, m, state, t) {
                Err(x) => Err(x),
                Ok((p, m)) => if name == "pvec_len"@ {
                    Ok((ValueView::U64(p.1), m))
                } else if name == "pvec_push"@ {
                    if args.len() < 2 {
                        Err(failure("pvec_push() takes two arguments"@, span))
                    } else {
                        match eval_of(cx, f, args[1], m) {
                            Err(x) => Err(x),
                            Ok((v, m)) => match asked_root_len(
                                cx,
                                m,
                                on(Op::Push, t, p.0, p.1, seq![v]),
                            ) {
                                Err(x) => Err(x),
                                Ok((q, m)) => match asked_done(
                                    cx,
                                    m,
                                    RequestView::WriteCell {
                                        cell: root_key(state),
                                        value: ValueView::PVec { len: q.1, root: q.0 },
                                    },
                                ) {
                                    Err(x) => Err(x),
                                    Ok((u, m)) => Ok((ValueView::U64(p.1), m)),
                                },
                            },
                        }
                    }
                } else if name == "pvec_to_array"@ {
                    match asked_values(cx, m, on(Op::ToVec, t, p.0, p.1, seq![])) {
                        Err(x) => Err(x),
                        Ok((s, m)) => Ok((ValueView::Array(s), m)),
                    }
                } else if name == "pmap_contains"@ || name == "pbtree_contains"@ {
                    if args.len() < 2 {
                        Err(failure(name + "() takes two arguments"@, span))
                    } else {
                        match eval_of(cx, f, args[1], m) {
                            Err(x) => Err(x),
                            Ok((k, m)) => match asked_flag(
                                cx,
                                m,
                                on(Op::Contains, t, p.0, 0, seq![k]),
                            ) {
                                Err(x) => Err(x),
                                Ok((b, m)) => Ok((ValueView::Bool(b), m)),
                            },
                        }
                    }
                } else if name == "pbtree_range"@ {
                    if args.len() < 3 {
                        Err(failure("pbtree_range() takes three arguments"@, span))
                    } else {
                        match eval_of(cx, f, args[1], m) {
                            Err(x) => Err(x),
                            Ok((lo, m)) => match eval_of(cx, f, args[2], m) {
                                Err(x) => Err(x),
                                Ok((hi, m)) => match asked_values(
                                    cx,
                                    m,
                                    on(Op::Range, t, p.0, 0, seq![lo, hi]),
                                ) {
                                    Err(x) => Err(x),
                                    Ok((s, m)) => Ok((ValueView::Array(s), m)),
                                },
                            },
                        }
                    }
                } else {
                    match asked_entries(cx, m, on(Op::Entries, t, p.0, 0, seq![])) {
                        Err(x) => Err(x),
                        Ok((s, m)) => Ok(
                            (
                                ValueView::Array(
                                    if name == "pmap_entries"@ {
                                        entry_tuples(s)
                                    } else if name == "pmap_keys"@ {
                                        entry_keys(s)
                                    } else {
                                        entry_values(s)
                                    },
                                ),
                                m,
                            ),
                        ),
                    }
                },
            },
        }
    }
}

/// A call by name: a builtin, a host function, or a function of the module.
pub open spec fn call_of(
    cx: Setting,
    fuel: nat,
    name: Seq<char>,
    args: Seq<ValueView>,
    m: MachineView,
) -> Ran<ValueView>
    decreases fuel, 0nat,
{
    if fuel == 0 {
        Err(Stop::OutOfFuel)
    } else if !overrides(cx, name) && run_builtin(cx, name, args) is Some {
        pure_step(run_builtin(cx, name, args)->0, m)
    } else if place(cx.module.imports@, name) is Some {
        match asked_host(cx, m, RequestView::Host { name, args }) {
            Err(x) => Err(x),
            Ok((r, m)) => match r {
                Ok(v) => Ok((v, m)),
                Err(msg) => Err(failure("host '"@ + name + "': "@ + msg, no_span())),
            },
        }
    } else {
        match first_place(cx.module.functions@, name) {
            None => Err(failure("unknown function '"@ + name + "'"@, no_span())),
            Some(k) => fn_call_of(cx, (fuel - 1) as nat, k, args, m),
        }
    }
}

/// A call of the `k`-th function.
pub open spec fn fn_call_of(cx: Setting, fuel: nat, k: int, args: Seq<ValueView>, m: MachineView) -> Ran<ValueView>
    decreases fuel, 0nat,
{
    let g = cx.module.functions@[k];
    if fuel == 0 {
        Err(Stop::OutOfFuel)
    } else if g.params@.len() != args.len() {
        Err(
            failure(
                "function '"@ + g.name@ + "' expects "@ + decimal(g.params@.len()) + " arg(s), got "@
                    + decimal(args.len()),
                g.span,
            ),
        )
    } else if g.is_nore && m.entered.contains(k as usize) {
        Err(failure("re-entry into non-reentrant function '"@ + g.name@ + "'"@, g.span))
    } else {
        match block_flow_of(cx, (fuel - 1) as nat, g.body, true, inside(cx, m, k, args)) {
            Err(x) => Err(x),
            Ok((flow, inner)) => match flow {
                FlowView::Normal(v) => Ok((v, after_call(cx, m, k, inner))),
                FlowView::Return(v) => Ok((v, after_call(cx, m, k, inner))),
                _ => Err(failure("break/continue outside of a loop"@, g.span)),
            },
        }
    }
}

/// A block as an expression.
pub open spec fn block_value_of(cx: Setting, fuel: nat, b: Block, span: Span, m: MachineView) -> Ran<ValueView>
    decreases fuel, 0nat,
{
    if fuel == 0 {
        Err(Stop::OutOfFuel)
    } else {
        let f = (fuel - 1) as nat;
        match stmts_of(cx, f, b.stmts@, 0, opened(m)) {
            Err(x) => Err(x),
            Ok((flow, m)) => match flow {
                FlowView::Normal(_) => match b.tail {
                    Some(t) => match eval_of(cx, f, *t, m) {
                        Err(x) => Err(x),
                        Ok((v, m)) => Ok((v, closed(m))),
                    },
                    None => Ok((ValueView::Unit, closed(m))),
                },
                FlowView::Return(v) => Ok((v, closed(m))),
                _ => Err(failure("break/continue inside block expression"@, span)),
            },
        }
    }
}

/// A conditional as an expression.
pub open spec fn if_value_of(
    cx: Setting,
    fuel: nat,
    cond: Expr,
    then_block: Block,
    else_branch: ElseBranch,
    span: Span,
    m: MachineView,
) -> Ran<ValueView>
    decreases fuel, 0nat,
{
    if fuel == 0 {
        Err(Stop::OutOfFuel)
    } else {
        let f = (fuel - 1) as nat;
        match eval_of(cx, f, cond, m) {
            Err(x) => Err(x),
            Ok((c, m)) => if c == ValueView::Bool(true) {
                block_value_of(cx, f, then_block, then_block.span, m)
            } else {
                match else_branch {
                    ElseBranch::Absent => Err(failure("if-expression missing else branch"@, span)),
                    ElseBranch::Block(b) => block_value_of(cx, f, b, b.span, m),
                    ElseBranch::If(i) => if_value_of(
                        cx,
                        f,
                        i.cond,
                        i.then_block,
                        i.else_branch,
                        i.span,
                        m,
                    ),
                }
            },
        }
    }
}

/// A comprehension from its `i`-th clause on, after `acc`.
pub open spec fn comp_of(
    cx: Setting,
    fuel: nat,
    e: Expr,
    clauses: Seq<CompClause>,
    i: nat,
    acc: ValueView,
    m: MachineView,
) -> Ran<ValueView>
    decreases fuel, 0nat,
{
    if fuel == 0 {
        Err(Stop::OutOfFuel)
    } else {
        let f = (fuel - 1) as nat;
        if i >= clauses.len() {
            comp_item_of(cx, f, e, acc, m)
        } else {
            match clauses[i as int] {
                CompClause::For { var, iter } => match iter_of(cx, f, iter, m) {
                    Err(x) => Err(x),
                    Ok((v, m)) => match v {
                        ValueView::Array(s) => comp_each_of(cx, f, e, clauses, i, var@, s, 0, acc, m),
                        _ => Err(failure("comprehension iterator must be an array"@, iter.span)),
                    },
                },
                CompClause::If(cond) => match eval_of(cx, f, cond, m) {
                    Err(x) => Err(x),
                    Ok((v, m)) => match v {
                        ValueView::Bool(b) => if b {
                            comp_of(cx, f, e, clauses, i + 1, acc, m)
                        } else {
                            Ok((acc, m))
                        },
                        _ => Err(
                            failure("comprehension filter must be bool, got "@ + shown(v), cond.span),
                        ),
                    },
                },
            }
        }
    }
}

/// The rounds of a comprehension's `i`-th clause, from the `j`-th on.
pub open spec fn comp_each_of(
    cx: Setting,
    fuel: nat,
    e: Expr,
    clauses: Seq<CompClause>,
    i: nat,
    var: Seq<char>,
    s: Seq<ValueView>,
    j: nat,
    acc: ValueView,
    m: MachineView,
) -> Ran<ValueView>
    decreases fuel, s.len() - j,
{
    if fuel == 0 {
        Err(Stop::OutOfFuel)
    } else if j >= s.len() {
        Ok((acc, m))
    } else {
        match comp_of(
            cx,
            (fuel - 1) as nat,
            e,
            clauses,
            i + 1,
            acc,
            with_local(opened(m), var, s[j as int]),
        ) {
            Err(x) => Err(x),
            Ok((acc, m)) => comp_each_of(cx, fuel, e, clauses, i, var, s, j + 1, acc, closed(m)),
        }
    }
}

/// One more item of a comprehension.
pub open spec fn comp_item_of(cx: Setting, fuel: nat, e: Expr, acc: ValueView, m: MachineView) -> Ran<ValueView>
    decreases fuel, 0nat,
{
    if fuel == 0 {
        Err(Stop::OutOfFuel)
    } else {
        let f = (fuel - 1) as nat;
        match (e.kind, acc) {
            (ExprKind::ListComp { mapper, clauses }, ValueView::Array(s)) => match eval_of(cx, f, *mapper, m) {
                Err(x) => Err(x),
                Ok((v, m)) => Ok((ValueView::Array(s.push(v)), m)),
            },
            (ExprKind::SetComp { mapper, clauses }, ValueView::SetOf(s)) => match eval_of(cx, f, *mapper, m) {
                Err(x) => Err(x),
                Ok((v, m)) => Ok((ValueView::SetOf(with_member(s, v)), m)),
            },
            (ExprKind::DictComp { key, value, clauses }, ValueView::Dict(s)) => match eval_of(cx, f, *key, m) {
                Err(x) => Err(x),
                Ok((k, m)) => match eval_of(cx, f, *value, m) {
                    Err(x) => Err(x),
                    Ok((v, m)) => Ok((ValueView::Dict(with_entry(s, k, v)), m)),
                },
            },
            _ => Ok((acc, m)),
        }
    }
}

/// Statements in a row, from the `i`-th on, until one ends otherwise than
/// normally.
pub open spec fn stmts_of(cx: Setting, fuel: nat, s: Seq<Stmt>, i: nat, m: MachineView) -> Ran<FlowView>
    decreases fuel, s.len() - i,
{
    if fuel == 0 {
        Err(Stop::OutOfFuel)
    } else if i >= s.len() {
        Ok((FlowView::Normal(ValueView::Unit), m))
    } else {
        match stmt_of(cx, (fuel - 1) as nat, s[i as int], m) {
            Err(x) => Err(x),
            Ok((flow, m)) => match flow {
                FlowView::Normal(_) => stmts_of(cx, fuel, s, i + 1, m),
                _ => Ok((flow, m)),
            },
        }
    }
}

/// A block as a statement; the body of a function returns its tail.
pub open spec fn block_flow_of(cx: Setting, fuel: nat, b: Block, returns_tail: bool, m: MachineView) -> Ran<FlowView>
    decreases fuel, 0nat,
{
    if fuel == 0 {
        Err(Stop::OutOfFuel)
    } else {
        let f = (fuel - 1) as nat;
        match stmts_of(cx, f, b.stmts@, 0, opened(m)) {
            Err(x) => Err(x),
            Ok((flow, m)) => match flow {
                FlowView::Normal(_) => match b.tail {
                    Some(t) => match eval_of(cx, f, *t, m) {
                        Err(x) => Err(x),
                        Ok((v, m)) => Ok(
                            (
                                if returns_tail {
                                    FlowView::Return(v)
                                } else {
                                    FlowView::Normal(v)
                                },
                                closed(m),
                            ),
                        ),
                    },
                    None => Ok((FlowView::Normal(ValueView::Unit), closed(m))),
                },
                _ => Ok((flow, closed(m))),
            },
        }
    }
}

pub open spec fn unit_flow(r: Ran<()>) -> Ran<FlowView> {
    match r {
        Err(x) => Err(x),
        Ok((u, m)) => Ok((FlowView::Normal(ValueView::Unit), m)),
    }
}

/// A statement.
pub open spec fn stmt_of(cx: Setting, fuel: nat, s: Stmt, m: MachineView) -> Ran<FlowView>
    decreases fuel, 0nat,
{
    if fuel == 0 {
        Err(Stop::OutOfFuel)
    } else {
        let f = (fuel - 1) as nat;
        match s {
            Stmt::Let { name, ty, value, span } => match eval_of(cx, f, value, m) {
                Err(x) => Err(x),
                Ok((v, m)) => Ok((FlowView::Normal(ValueView::Unit), with_local(m, name@, v))),
            },
            Stmt::Assign { target, value, span } => match eval_of(cx, f, value, m) {
                Err(x) => Err(x),
                Ok((v, m)) => unit_flow(assign_of(cx, f, target, v, m)),
            },
            Stmt::Return { value, span } => match value {
                Some(e) => match eval_of(cx, f, e, m) {
                    Err(x) => Err(x),
                    Ok((v, m)) => Ok((FlowView::Return(v), m)),
                },
                None => Ok((FlowView::Return(ValueView::Unit), m)),
            },
            Stmt::If(i) => if_flow_of(cx, f, i, m),
            Stmt::While { cond, body, span } => while_of(cx, f, cond, body, span, m),
            Stmt::For { var, iter, body, span } => match iter_of(cx, f, iter, m) {
                Err(x) => Err(x),
                Ok((v, m)) => match v {
                    ValueView::Array(s) => each_of(cx, f, var@, s, 0, body, m),
                    _ => Err(failure("for-in iterator must be an array"@, span)),
                },
            },
            Stmt::ForRange { var, start, end, inclusive, body, span } => match eval_of(cx, f, start, m) {
                Err(x) => Err(x),
                Ok((a, m)) => match eval_of(cx, f, end, m) {
                    Err(x) => Err(x),
                    Ok((b, m)) => match range_bounds(a, b) {
                        Some((kind, lo, hi)) => range_of(cx, f, var@, kind, lo, hi, inclusive, body, m),
                        None => Err(failure("range bounds must be the same integer type"@, span)),
                    },
                },
            },
            Stmt::Break(_) => Ok((FlowView::Break, m)),
            Stmt::Continue(_) => Ok((FlowView::Continue, m)),
            Stmt::Placeholder(span) => Err(failure("`_;` left in a function body"@, span)),
            Stmt::Expr(e) => match eval_of(cx, f, e, m) {
                Err(x) => Err(x),
                Ok((v, m)) => Ok((FlowView::Normal(ValueView::Unit), m)),
            },
            Stmt::Parallel { stmts, span } => stmts_of(cx, f, stmts@, 0, m),
            Stmt::ParallelForTo { id_var, source, output, body, span } => par_of(
                cx,
                f,
                id_var@,
                source,
                output,
                body,
                span,
                m,
            ),
            Stmt::Emit { value, span } => match eval_of(cx, f, *value, m) {
                Err(x) => Err(x),
                Ok((v, m)) => match v {
                    ValueView::Struct { name, fields } => match asked_done(
                        cx,
                        m,
                        RequestView::Emit {
                            module: module_name(cx),
                            name,
                            args: field_values(fields),
                        },
                    ) {
                        Err(x) => Err(x),
                        Ok((u, m)) => unit_flow(handlers_of(cx, f, 0, name, v, m)),
                    },
                    _ => Err(failure("emit expected a struct value, got "@ + shown(v), span)),
                },
            },
            Stmt::Delete { target, span } => unit_flow(delete_of(cx, f, target, span, m)),
            Stmt::LetTuple { names, value, span } => match eval_of(cx, f, value, m) {
                Err(x) => Err(x),
                Ok((v, m)) => match v {
                    ValueView::Tuple(s) => if s.len() != names@.len() {
                        Err(failure("tuple destructure arity mismatch"@, span))
                    } else {
                        Ok(
                            (
                                FlowView::Normal(ValueView::Unit),
                                with_locals(m, names@, s, names@.len()),
                            ),
                        )
                    },
                    _ => Err(failure("destructure: expected tuple, got "@ + shown(v), span)),
                },
            },
        }
    }
}

/// A conditional as a statement.
pub open spec fn if_flow_of(cx: Setting, fuel: nat, i: IfStmt, m: MachineView) -> Ran<FlowView>
    decreases fuel, 0nat,
{
    if fuel == 0 {
        Err(Stop::OutOfFuel)
    } else {
        let f = (fuel - 1) as nat;
        match eval_of(cx, f, i.cond, m) {
            Err(x) => Err(x),
            Ok((c, m)) => match c {
                ValueView::Bool(b) => if b {
                    block_flow_of(cx, f, i.then_block, false, m)
                } else {
                    match i.else_branch {
                        ElseBranch::Absent => Ok((FlowView::Normal(ValueView::Unit), m)),
                        ElseBranch::Block(b) => block_flow_of(cx, f, b, false, m),
                        ElseBranch::If(inner) => if_flow_of(cx, f, *inner, m),
                    }
                },
                _ => Err(failure("if condition must be bool, got "@ + shown(c), i.span)),
            },
        }
    }
}

/// A loop with a condition.
pub open spec fn while_of(cx: Setting, fuel: nat, cond: Expr, body: Block, span: Span, m: MachineView) -> Ran<FlowView>
    decreases fuel, 0nat,
{
    if fuel == 0 {
        Err(Stop::OutOfFuel)
    } else {
        let f = (fuel - 1) as nat;
        match eval_of(cx, f, cond, m) {
            Err(x) => Err(x),
            Ok((c, m)) => match c {
                ValueView::Bool(b) => if !b {
                    Ok((FlowView::Normal(ValueView::Unit), m))
                } else {
                    match block_flow_of(cx, f, body, false, m) {
                        Err(x) => Err(x),
                        Ok((flow, m)) => match flow {
                            FlowView::Break => Ok((FlowView::Normal(ValueView::Unit), m)),
                            FlowView::Return(v) => Ok((flow, m)),
                            _ => while_of(cx, f, cond, body, span, m),
                        },
                    }
                },
                _ => Err(failure("while condition must be bool, got "@ + shown(c), span)),
            },
        }
    }
}

/// The rounds of a loop over elements, from the `i`-th on.
pub open spec fn each_of(
    cx: Setting,
    fuel: nat,
    var: Seq<char>,
    s: Seq<ValueView>,
    i: nat,
    body: Block,
    m: MachineView,
) -> Ran<FlowView>
    decreases fuel, s.len() - i,
{
    if fuel == 0 {
        Err(Stop::OutOfFuel)
    } else if i >= s.len() {
        Ok((FlowView::Normal(ValueView::Unit), m))
    } else {
        match block_flow_of(cx, (fuel - 1) as nat, body, false, with_local(opened(m), var, s[i as int])) {
            Err(x) => Err(x),
            Ok((flow, m)) => match flow {
                FlowView::Break => Ok((FlowView::Normal(ValueView::Unit), closed(m))),
                FlowView::Return(v) => Ok((flow, closed(m))),
                _ => each_of(cx, fuel, var, s, i + 1, body, closed(m)),
            },
        }
    }
}

/// The rounds of a loop over a range, from `i` on.
pub open spec fn range_of(
    cx: Setting,
    fuel: nat,
    var: Seq<char>,
    kind: int,
    i: int,
    lim: int,
    inclusive: bool,
    body: Block,
    m: MachineView,
) -> Ran<FlowView>
    decreases fuel, (if i <= lim { lim - i + 1 } else { 0 }),
{
    if fuel == 0 {
        Err(Stop::OutOfFuel)
    } else if i > lim || (i == lim && !inclusive) {
        Ok((FlowView::Normal(ValueView::Unit), m))
    } else {
        match block_flow_of(
            cx,
            (fuel - 1) as nat,
            body,
            false,
            with_local(opened(m), var, range_value(kind, i)),
        ) {
            Err(x) => Err(x),
            Ok((flow, m)) => match flow {
                FlowView::Break => Ok((FlowView::Normal(ValueView::Unit), closed(m))),
                FlowView::Return(v) => Ok((flow, closed(m))),
                _ => range_of(cx, fuel, var, kind, i + 1, lim, inclusive, body, closed(m)),
            },
        }
    }
}

/// A loop that fills an array.
pub open spec fn par_of(
    cx: Setting,
    fuel: nat,
    var: Seq<char>,
    source: Expr,
    output: Expr,
    body: Block,
    span: Span,
    m: MachineView,
) -> Ran<FlowView>
    decreases fuel, 0nat,
{
    if fuel == 0 {
        Err(Stop::OutOfFuel)
    } else {
        let f = (fuel - 1) as nat;
        match eval_of(cx, f, source, m) {
            Err(x) => Err(x),
            Ok((v, m)) => match v {
                ValueView::Array(src) => match output_array(output, m) {
                    Err(e) => Err(Stop::Fail(e)),
                    Ok((name, out)) => if out.len() != src.len() {
                        Err(
                            failure(
                                "parallel-for source length "@ + decimal(src.len())
                                    + " != output length "@ + decimal(out.len()),
                                span,
                            ),
                        )
                    } else {
                        match par_each_of(cx, f, var, src, 0, out, body, m) {
                            Err(x) => Err(x),
                            Ok((r, m)) => match r {
                                Ok(v) => Ok((FlowView::Return(v), m)),
                                Err(out) => Ok(
                                    (FlowView::Normal(ValueView::Unit), filled(m, name, out)),
                                ),
                            },
                        }
                    },
                },
                _ => Err(failure("parallel-for source must evaluate to an array"@, source.span)),
            },
        }
    }
}

/// The machine with the binding of a name set to an array.
pub open spec fn filled(m: MachineView, name: Seq<char>, out: Seq<ValueView>) -> MachineView {
    match inner_scope(m.scopes, name) {
        Some(i) => set_in(m, i, name, ValueView::Array(out)),
        None => m,
    }
}

/// The array that a filling loop writes to: that of the name's binding.
pub open spec fn output_array(output: Expr, m: MachineView) -> Result<(Seq<char>, Seq<ValueView>), ErrorView> {
    match output.kind {
        ExprKind::Ident(name) => match inner_scope(m.scopes, name@) {
            None => Err(
                runtime_error("parallel-for output `"@ + name@ + "` is not bound"@, output.span),
            ),
            Some(i) => match m.scopes[i][name@] {
                ValueView::Array(a) => Ok((name@, a)),
                _ => Err(
                    runtime_error(
                        "parallel-for output `"@ + name@ + "` must be an array"@,
                        output.span,
                    ),
                ),
            },
        },
        _ => Err(runtime_error("parallel-for output must be a local array binding"@, output.span)),
    }
}

fn find_output_array<'a>(output: &'a Expr, m: &Machine) -> (r: Result<(&'a String, Vec<Value>), Error>)
    ensures
        match output_array(*output, m@) {
            Ok((n, s)) => match r {
                Ok(p) => p.0@ == n && views(p.1@) == s,
                Err(_) => false,
            },
            Err(x) => match r {
                Ok(_) => false,
                Err(e) => e@ == x,
            },
        },
{
    match &output.kind {
        ExprKind::Ident(name) => match m.find_inner(name.as_str()) {
            None => Err(
                runtime_err(
                    concat3("parallel-for output `", name.as_str(), "` is not bound"),
                    output.span,
                ),
            ),
            Some((i, k)) => match &m.scopes[i][k].1 {
                Value::Array(a) => Ok((name, copy_values(a))),
                _ => Err(
                    runtime_err(
                        concat3("parallel-for output `", name.as_str(), "` must be an array"),
                        output.span,
                    ),
                ),
            },
        },
        _ => Err(runtime_err(text("parallel-for output must be a local array binding"), output.span)),
    }
}

/// The rounds of a filling loop, from the `i`-th on: the value of a `return`, or
/// else the filled array.
pub open spec fn par_each_of(
    cx: Setting,
    fuel: nat,
    var: Seq<char>,
    src: Seq<ValueView>,
    i: nat,
    out: Seq<ValueView>,
    body: Block,
    m: MachineView,
) -> Ran<Result<ValueView, Seq<ValueView>>>
    decreases fuel, src.len() - i,
{
    if fuel == 0 {
        Err(Stop::OutOfFuel)
    } else if i >= src.len() {
        Ok((Err(out), m))
    } else {
        match block_flow_of(cx, (fuel - 1) as nat, body, false, with_local(opened(m), var, src[i as int])) {
            Err(x) => Err(x),
            Ok((flow, m)) => match flow {
                FlowView::Normal(v) => par_each_of(
                    cx,
                    fuel,
                    var,
                    src,
                    i + 1,
                    out.update(i as int, v),
                    body,
                    closed(m),
                ),
                FlowView::Continue => par_each_of(cx, fuel, var, src, i + 1, out, body, closed(m)),
                FlowView::Break => Ok((Err(out), closed(m))),
                FlowView::Return(v) => Ok((Ok(v), closed(m))),
            },
        }
    }
}

/// The handlers of an event, from the `i`-th on.
pub open spec fn handlers_of(cx: Setting, fuel: nat, i: nat, name: Seq<char>, v: ValueView, m: MachineView) -> Ran<()>
    decreases fuel, cx.module.handlers@.len() - i,
{
    if fuel == 0 {
        Err(Stop::OutOfFuel)
    } else if i >= cx.module.handlers@.len() {
        Ok(((), m))
    } else if !handles(cx.module.handlers@[i as int], name, module_name(cx)) {
        handlers_of(cx, fuel, i + 1, name, v, m)
    } else {
        match call_of(
            cx,
            (fuel - 1) as nat,
            cx.module.handlers@[i as int].fn_def.name@,
            seq![v],
            m,
        ) {
            Err(x) => Err(x),
            Ok((r, m)) => handlers_of(cx, fuel, i + 1, name, v, m),
        }
    }
}

/// The removal of an entry of a keyed state.
pub open spec fn delete_of(cx: Setting, fuel: nat, target: Expr, span: Span, m: MachineView) -> Ran<()>
    decreases fuel, 0nat,
{
    if fuel == 0 {
        Err(Stop::OutOfFuel)
    } else {
        match target.kind {
            ExprKind::Index { target: t, key } => match t.kind {
                ExprKind::Ident(state) => match eval_of(cx, (fuel - 1) as nat, *key, m) {
                    Err(x) => Err(x),
                    Ok((k, m)) => match state_type(cx, state@) {
                        None => Err(failure("'"@ + state@ + "' is not a state"@, span)),
                        Some(ty) => if is_keyed(Some(ty)) {
                            deleted(cx, m, state@, ty, k)
                        } else {
                            Err(
                                failure(
                                    "delete: '"@ + state@ + "' is not a pmap or pbtree state"@,
                                    span,
                                ),
                            )
                        },
                    },
                },
                _ => Err(failure("delete target must be a state slot"@, span)),
            },
            _ => Err(failure("delete target must be `state[key]`"@, span)),
        }
    }
}

/// Removes an entry, and takes its key out of the indexes over the state.
pub open spec fn deleted(cx: Setting, m: MachineView, state: Seq<char>, t: Type, k: ValueView) -> Ran<()> {
    match read_root(cx, m, state, t) {
        Err(x) => Err(x),
        Ok((p, m)) => match asked_option(cx, m, on(Op::Get, t, p.0, 0, seq![k])) {
            Err(x) => Err(x),
            Ok((prior, m)) => match drop_entry(cx, m, state, t, p.0, k) {
                Err(x) => Err(x),
                Ok((u, m)) => match prior {
                    Some(v) => unindexed_all(cx, m, 0, state, k, v),
                    None => Ok(((), m)),
                },
            },
        },
    }
}

fn do_delete(cx: &Setting, m: &mut Machine, state: &str, t: &Type, k: Value) -> (r: Result<(), Halt>)
    ensures
        ran_unit(r, old(m)@, final(m)@, deleted(*cx, old(m)@, state@, *t, k@)),
{
    let (root, _) = match get_root(cx, m, state, t) {
        Ok(p) => p,
        Err(h) => return Err(h),
    };
    let prior = match ask_option(cx, m, request1(Op::Get, t, root, 0, k.copy())) {
        Ok(p) => p,
        Err(h) => return Err(h),
    };
    match remove_entry(cx, m, state, t, root, k.copy()) {
        Ok(_) => {},
        Err(h) => return Err(h),
    }
    match prior {
        Some(v) => unmaintain_indexes(cx, m, state, &k, &v),
        None => Ok(()),
    }
}

/// An assignment.
pub open spec fn assign_of(cx: Setting, fuel: nat, target: Expr, v: ValueView, m: MachineView) -> Ran<()>
    decreases fuel, 0nat,
{
    if fuel == 0 {
        Err(Stop::OutOfFuel)
    } else {
        let f = (fuel - 1) as nat;
        match target.kind {
            ExprKind::Ident(name) => match inner_scope(m.scopes, name@) {
                Some(i) => Ok(((), set_in(m, i, name@, v))),
                None => match state_type(cx, name@) {
                    Some(t) => asked_done(
                        cx,
                        m,
                        RequestView::Write { key: root_key(name@), ty: type_view(t), value: v },
                    ),
                    None => Err(failure("undefined variable '"@ + name@ + "'"@, target.span)),
                },
            },
            ExprKind::Index { target: t, key } => match t.kind {
                ExprKind::Ident(state) => match eval_of(cx, f, *key, m) {
                    Err(x) => Err(x),
                    Ok((k, m)) => stored(cx, m, state@, k, v, target.span),
                },
                _ => Err(failure("indexed assignment target must be a state"@, target.span)),
            },
            ExprKind::Field { target: inner, name } => match state_place(cx, m, target) {
                Some((k, t)) => asked_done(
                    cx,
                    m,
                    RequestView::Write { key: k, ty: type_view(t), value: v },
                ),
                None => match eval_of(cx, f, *inner, m) {
                    Err(x) => Err(x),
                    Ok((p, m)) => match p {
                        ValueView::Struct { name: sname, fields } => match field_at(fields, name@, 0) {
                            Some(k) => assign_of(
                                cx,
                                f,
                                *inner,
                                ValueView::Struct {
                                    name: sname,
                                    fields: fields.update(k, (fields[k].0, v)),
                                },
                                m,
                            ),
                            None => Err(failure("no field '"@ + name@ + "'"@, target.span)),
                        },
                        _ => Err(failure("field assignment on non-struct"@, inner.span)),
                    },
                },
            },
            _ => Err(failure("invalid assignment target"@, target.span)),
        }
    }
}

/// Stores a value under a key of a state.
pub open spec fn stored(
    cx: Setting,
    m: MachineView,
    state: Seq<char>,
    k: ValueView,
    v: ValueView,
    span: Span,
) -> Ran<()> {
    match state_type(cx, state) {
        None => Err(failure("'"@ + state + "' is not a state"@, span)),
        Some(t) => match t {
            Type::PVec { elem } => match vec_index(k, span) {
                Err(e) => Err(Stop::Fail(e)),
                Ok(i) => match read_root(cx, m, state, t) {
                    Err(x) => Err(x),
                    Ok((p, m)) => match asked_root(
                        cx,
                        m,
                        on(Op::Put, t, p.0, p.1, seq![ValueView::U64(i), v]),
                    ) {
                        Err(x) => Err(x),
                        Ok((h, m)) => asked_done(
                            cx,
                            m,
                            RequestView::WriteCell {
                                cell: root_key(state),
                                value: ValueView::PVec { len: p.1, root: h },
                            },
                        ),
                    },
                },
            },
            Type::PMap { key, value } => match read_root(cx, m, state, t) {
                Err(x) => Err(x),
                Ok((p, m)) => match put_entry(cx, m, state, t, p.0, k, v) {
                    Err(x) => Err(x),
                    Ok((u, m)) => indexed_all(cx, m, 0, state, k, v),
                },
            },
            Type::PBTree { key, value } => match read_root(cx, m, state, t) {
                Err(x) => Err(x),
                Ok((p, m)) => put_entry(cx, m, state, t, p.0, k, v),
            },
            _ => match map_cell(cx, m, root_key(state), k) {
                Err(x) => Err(x),
                Ok((c, m)) => asked_done(cx, m, RequestView::WriteCell { cell: c, value: v }),
            },
        },
    }
}

fn store(cx: &Setting, m: &mut Machine, state: &str, k: Value, v: Value, span: Span) -> (r: Result<(), Halt>)
    ensures
        ran_unit(r, old(m)@, final(m)@, stored(*cx, old(m)@, state@, k@, v@, span)),
{
    let t = match find_state(cx, state) {
        Some(t) => t,
        None => return Err(halt(concat3("'", state, "' is not a state"), span)),
    };
    match t {
        Type::PVec { elem: _ } => {
            let i: u64 = match to_vec_index(&k, span) {
                Ok(i) => i,
                Err(e) => return Err(Halt::Fail(e)),
            };
            let (root, len) = match get_root(cx, m, state, t) {
                Ok(p) => p,
                Err(h) => return Err(h),
            };
            let h = match ask_root(cx, m, request2(Op::Put, t, root, len, Value::U64(i), v)) {
                Ok(h) => h,
                Err(x) => return Err(x),
            };
            ask_done(
                cx,
                m,
                Request::WriteCell { cell: state_cell(state), value: Value::PVec { len, root: h } },
            )
        },
        Type::PMap { key: _, value: _ } => {
            let (root, _) = match get_root(cx, m, state, t) {
                Ok(p) => p,
                Err(h) => return Err(h),
            };
            match store_entry(cx, m, state, t, root, k.copy(), v.copy()) {
                Ok(_) => {},
                Err(h) => return Err(h),
            }
            maintain_indexes(cx, m, state, &k, &v)
        },
        Type::PBTree { key: _, value: _ } => {
            let (root, _) = match get_root(cx, m, state, t) {
                Ok(p) => p,
                Err(h) => return Err(h),
            };
            store_entry(cx, m, state, t, root, k, v)
        },
        _ => {
            let c = match compose_map_key(cx, m, state_cell(state), &k) {
                Ok(c) => c,
                Err(h) => return Err(h),
            };
            ask_done(cx, m, Request::WriteCell { cell: c, value: v })
        },
    }
}

/// Evaluates an expression.
#[verifier::rlimit(60)]
#[verifier::spinoff_prover]
pub fn eval(cx: &Setting, fuel: u64, e: &Expr, m: &mut Machine) -> (r: Result<Value, Halt>)
    ensures
        ran(r, old(m)@, final(m)@, eval_of(*cx, fuel as nat, *e, old(m)@)),
    decreases fuel,
{
    if fuel == 0 {
        return Err(Halt::OutOfFuel);
    }
    let f: u64 = fuel - 1;
    match &e.kind {
        ExprKind::Int(n) => Ok(Value::Int(n.copy())),
        ExprKind::UInt(n) => Ok(Value::UInt(n.copy())),
        ExprKind::Float(n) => Ok(Value::Float(*n)),
        ExprKind::JsonNull => Ok(Value::Json(Json::Null)),
        ExprKind::I32(n) => Ok(Value::I32(*n)),
        ExprKind::U32(n) => Ok(Value::U32(*n)),
        ExprKind::U64(n) => Ok(Value::U64(*n)),
        ExprKind::U128(n) => Ok(Value::U128(*n)),
        ExprKind::Bool(b) => Ok(Value::Bool(*b)),
        ExprKind::Str(s) => Ok(Value::Str(s.clone())),
        ExprKind::JsonObject(ps) => eval_object(cx, f, ps, m),
        ExprKind::JsonArray(es) => match evals(cx, f, es, m) {
            Ok(vs) => Ok(Value::Json(Json::Array(vs))),
            Err(h) => Err(h),
        },
        ExprKind::Ident(name) => lookup(cx, f, name.as_str(), e.span, m),
        ExprKind::Binary { op, lhs, rhs } => {
            let l = match eval(cx, f, lhs, m) {
                Ok(v) => v,
                Err(h) => return Err(h),
            };
            let r = match eval(cx, f, rhs, m) {
                Ok(v) => v,
                Err(h) => return Err(h),
            };
            lift(eval_binary(*op, &l, &r, e.span))
        },
        ExprKind::Unary { op, operand } => match eval(cx, f, operand, m) {
            Ok(v) => lift(eval_unary(*op, &v, e.span)),
            Err(h) => Err(h),
        },
        ExprKind::Index { target, key } => eval_index(cx, f, target, key, e.span, m),
        ExprKind::Array(es) => match evals(cx, f, es, m) {
            Ok(vs) => Ok(Value::Array(vs)),
            Err(h) => Err(h),
        },
        ExprKind::StructLit { name, fields } => match find_decl(cx, name.as_str()) {
            None => Err(halt(concat3("unknown struct '", name.as_str(), "'"), e.span)),
            Some(decl) => eval_struct(cx, f, decl, name, fields, e.span, m),
        },
        ExprKind::Field { target, name } => match find_state_place(cx, m, e) {
            Some((key, t)) => ask_value(cx, m, Request::Read { key, ty: t.copy() }),
            None => match eval(cx, f, target, m) {
                Ok(v) => lift(get_struct_field(&v, name.as_str(), target.span, e.span)),
                Err(h) => Err(h),
            },
        },
        ExprKind::Prev => {
            let n: usize = m.pipe.len();
            if n > 0 {
                assert(m@.pipe[n - 1] == value_view(m.pipe@[n - 1]));
                Ok(m.pipe[n - 1].copy())
            } else {
                Err(halt(text("$$ used outside of a pipe stage"), e.span))
            }
        },
        ExprKind::Pipe { head, step } => {
            let v = match eval(cx, f, head, m) {
                Ok(v) => v,
                Err(h) => return Err(h),
            };
            m.push_pipe(v);
            match eval(cx, f, step, m) {
                Ok(v) => {
                    m.pop_pipe();
                    Ok(v)
                },
                Err(h) => Err(h),
            }
        },
        ExprKind::SetLit(es) => eval_set(cx, f, es, m),
        ExprKind::DictLit(ps) => eval_dict(cx, f, ps, m),
        ExprKind::ListComp { mapper: _, clauses } => {
            let none: Vec<Value> = Vec::new();
            assert(views(none@) =~= seq![]);
            walk_comp_clauses(cx, f, e, clauses, 0, Value::Array(none), m)
        },
        ExprKind::SetComp { mapper: _, clauses } => {
            let none: Vec<Value> = Vec::new();
            assert(views(none@) =~= seq![]);
            walk_comp_clauses(cx, f, e, clauses, 0, Value::SetOf(none), m)
        },
        ExprKind::DictComp { key: _, value: _, clauses } => {
            let none: Vec<(Value, Value)> = Vec::new();
            assert(pair_views(none@) =~= seq![]);
            walk_comp_clauses(cx, f, e, clauses, 0, Value::Dict(none), m)
        },
        ExprKind::DynCall { target_ident, method: _, args: _, method_is_view: _, method_is_pure: _ } => match lookup(
            cx,
            f,
            target_ident.as_str(),
            e.span,
            m,
        ) {
            Ok(v) => Err(dyn_halt(target_ident.as_str(), &v, e.span)),
            Err(h) => Err(h),
        },
        ExprKind::Call { module, name, args } => {
            if module.is_none() && find_state_builtin(name.as_str()) != 0 {
                return eval_state_call(cx, f, name.as_str(), args, e.span, m);
            }
            let vs = match evals(cx, f, args, m) {
                Ok(vs) => vs,
                Err(h) => return Err(h),
            };
            if module.is_some() {
                return Err(
                    halt(
                        text(
                            "tree-walk interp does not support cross-module calls; use Engine::execute_main",
                        ),
                        e.span,
                    ),
                );
            }
            call(cx, f, name.as_str(), vs, m)
        },
        ExprKind::TupleLit(es) => match evals(cx, f, es, m) {
            Ok(vs) => Ok(Value::Tuple(vs)),
            Err(h) => Err(h),
        },
        ExprKind::TupleIndex { target, index } => match eval(cx, f, target, m) {
            Ok(v) => lift(get_tuple_item(&v, *index, target.span, e.span)),
            Err(h) => Err(h),
        },
        ExprKind::EnumCtor { enum_name, variant, args } => match evals(cx, f, args, m) {
            Ok(vs) => Ok(
                Value::Enum { enum_name: enum_name.clone(), variant: variant.clone(), payload: vs },
            ),
            Err(h) => Err(h),
        },
        ExprKind::Match { scrut, arms } => {
            let v = match eval(cx, f, scrut, m) {
                Ok(v) => v,
                Err(h) => return Err(h),
            };
            match &v {
                Value::Enum { enum_name: _, variant, payload } => match find_arm(arms, variant.as_str()) {
                    None => Err(
                        halt(concat3("no arm matched variant '", variant.as_str(), "'"), e.span),
                    ),
                    Some(k) => {
                        enter_arm(m, &arms[k].pattern, payload);
                        match eval(cx, f, &arms[k].body, m) {
                            Ok(r) => {
                                m.close();
                                Ok(r)
                            },
                            Err(h) => Err(h),
                        }
                    },
                },
                _ => Err(
                    halt(concat2("match on non-enum: ", v.to_string().as_str()), scrut.span),
                ),
            }
        },
        ExprKind::Block(b) => eval_block(cx, f, b, e.span, m),
        ExprKind::If { cond, then_block, else_branch } => eval_if(
            cx,
            f,
            cond,
            then_block,
            else_branch,
            e.span,
            m,
        ),
    }
}

fn evals(cx: &Setting, fuel: u64, s: &Vec<Expr>, m: &mut Machine) -> (r: Result<Vec<Value>, Halt>)
    ensures
        ran_list(r, old(m)@, final(m)@, evals_of(*cx, fuel as nat, s@, 0, seq![], old(m)@)),
    decreases fuel,
{
    if fuel == 0 {
        return Err(Halt::OutOfFuel);
    }
    let mut r: Vec<Value> = Vec::new();
    assert(views(r@) =~= seq![]);
    let mut i: usize = 0;
    while i < s.len()
        invariant
            i <= s@.len(),
            fuel > 0,
            level(m@, old(m)@),
            evals_of(*cx, fuel as nat, s@, 0, seq![], old(m)@) == evals_of(
                *cx,
                fuel as nat,
                s@,
                i as nat,
                views(r@),
                m@,
            ),
        decreases s@.len() - i,
    {
        let ghost acc = views(r@);
        let v = match eval(cx, fuel - 1, &s[i], m) {
            Ok(v) => v,
            Err(h) => return Err(h),
        };
        let ghost x = v@;
        r.push(v);
        assert(views(r@) =~= acc.push(x));
        i = i + 1;
    }
    Ok(r)
}

fn eval_object(cx: &Setting, fuel: u64, s: &Vec<(String, Expr)>, m: &mut Machine) -> (r: Result<Value, Halt>)
    ensures
        ran(r, old(m)@, final(m)@, object_of(*cx, fuel as nat, s@, 0, seq![], old(m)@)),
    decreases fuel,
{
    if fuel == 0 {
        return Err(Halt::OutOfFuel);
    }
    let mut r = Entries::new();
    let mut i: usize = 0;
    while i < s.len()
        invariant
            i <= s@.len(),
            fuel > 0,
            level(m@, old(m)@),
            object_of(*cx, fuel as nat, s@, 0, seq![], old(m)@) == object_of(
                *cx,
                fuel as nat,
                s@,
                i as nat,
                entries_of(r),
                m@,
            ),
        decreases s@.len() - i,
    {
        let v = match eval(cx, fuel - 1, &s[i].1, m) {
            Ok(v) => v,
            Err(h) => return Err(h),
        };
        r.insert(s[i].0.clone(), v);
        i = i + 1;
    }
    Ok(Value::Json(Json::Object(r)))
}

#[verifier::rlimit(30)]
fn eval_struct(
    cx: &Setting,
    fuel: u64,
    decl: &Vec<StructField>,
    name: &String,
    given: &Vec<(String, Expr)>,
    span: Span,
    m: &mut Machine,
) -> (r: Result<Value, Halt>)
    ensures
        ran(r, old(m)@, final(m)@, struct_of(*cx, fuel as nat, decl@, 0, name@, given@, span, seq![], old(m)@)),
    decreases fuel,
{
    if fuel == 0 {
        return Err(Halt::OutOfFuel);
    }
    let mut r: Vec<(String, Value)> = Vec::new();
    assert(field_views(r@) =~= seq![]);
    let mut i: usize = 0;
    while i < decl.len()
        invariant
            i <= decl@.len(),
            fuel > 0,
            level(m@, old(m)@),
            struct_of(*cx, fuel as nat, decl@, 0, name@, given@, span, seq![], old(m)@) == struct_of(
                *cx,
                fuel as nat,
                decl@,
                i as nat,
                name@,
                given@,
                span,
                field_views(r@),
                m@,
            ),
        decreases decl@.len() - i,
    {
        let ghost acc = field_views(r@);
        let k: usize = match find_first(given, decl[i].name.as_str()) {
            Some(k) => k,
            None => {
                let mut msg = concat3("missing field '", decl[i].name.as_str(), "' in struct '");
                msg.append(name.as_str());
                msg.append("'");
                return Err(halt(msg, span));
            },
        };
        let v = match eval(cx, fuel - 1, &given[k].1, m) {
            Ok(v) => v,
            Err(h) => return Err(h),
        };
        let ghost x = (decl@[i as int].name@, v@);
        r.push((decl[i].name.clone(), v));
        assert(field_views(r@) =~= acc.push(x));
        i = i + 1;
    }
    Ok(Value::Struct { name: name.clone(), fields: r })
}

fn eval_set(cx: &Setting, fuel: u64, s: &Vec<Expr>, m: &mut Machine) -> (r: Result<Value, Halt>)
    ensures
        ran(r, old(m)@, final(m)@, set_of(*cx, fuel as nat, s@, 0, seq![], old(m)@)),
    decreases fuel,
{
    if fuel == 0 {
        return Err(Halt::OutOfFuel);
    }
    let mut r: Vec<Value> = Vec::new();
    assert(views(r@) =~= seq![]);
    let mut i: usize = 0;
    while i < s.len()
        invariant
            i <= s@.len(),
            fuel > 0,
            level(m@, old(m)@),
            set_of(*cx, fuel as nat, s@, 0, seq![], old(m)@) == set_of(*cx, fuel as nat, s@, i as nat, views(r@), m@),
        decreases s@.len() - i,
    {
        let v = match eval(cx, fuel - 1, &s[i], m) {
            Ok(v) => v,
            Err(h) => return Err(h),
        };
        add_member(&mut r, v);
        i = i + 1;
    }
    Ok(Value::SetOf(r))
}

fn eval_dict(cx: &Setting, fuel: u64, s: &Vec<(Expr, Expr)>, m: &mut Machine) -> (r: Result<Value, Halt>)
    ensures
        ran(r, old(m)@, final(m)@, dict_of(*cx, fuel as nat, s@, 0, seq![], old(m)@)),
    decreases fuel,
{
    if fuel == 0 {
        return Err(Halt::OutOfFuel);
    }
    let mut r: Vec<(Value, Value)> = Vec::new();
    assert(pair_views(r@) =~= seq![]);
    let mut i: usize = 0;
    while i < s.len()
        invariant
            i <= s@.len(),
            fuel > 0,
            level(m@, old(m)@),
            dict_of(*cx, fuel as nat, s@, 0, seq![], old(m)@) == dict_of(
                *cx,
                fuel as nat,
                s@,
                i as nat,
                pair_views(r@),
                m@,
            ),
        decreases s@.len() - i,
    {
        let k = match eval(cx, fuel - 1, &s[i].0, m) {
            Ok(v) => v,
            Err(h) => return Err(h),
        };
        let v = match eval(cx, fuel - 1, &s[i].1, m) {
            Ok(v) => v,
            Err(h) => return Err(h),
        };
        add_entry(&mut r, k, v);
        i = i + 1;
    }
    Ok(Value::Dict(r))
}

#[verifier::rlimit(30)]
fn eval_index(
    cx: &Setting,
    fuel: u64,
    target: &Expr,
    key: &Expr,
    span: Span,
    m: &mut Machine,
) -> (r: Result<Value, Halt>)
    ensures
        ran(r, old(m)@, final(m)@, index_of(*cx, fuel as nat, *target, *key, span, old(m)@)),
    decreases fuel,
{
    if fuel == 0 {
        return Err(Halt::OutOfFuel);
    }
    let f: u64 = fuel - 1;
    let found = match &target.kind {
        ExprKind::Ident(name) => match find_state(cx, name.as_str()) {
            Some(t) => Some((name, t)),
            None => None,
        },
        _ => None,
    };
    match found {
        Some((state, t)) => match t {
            Type::MapOf { key: _, value: vt } => {
                let k = match eval(cx, f, key, m) {
                    Ok(v) => v,
                    Err(h) => return Err(h),
                };
                let cell = match compose_map_key(cx, m, state_cell(state.as_str()), &k) {
                    Ok(c) => c,
                    Err(h) => return Err(h),
                };
                return ask_value(cx, m, Request::ReadCell { cell, ty: vt.copy() });
            },
            Type::PVec { elem: _ } => {
                let k = match eval(cx, f, key, m) {
                    Ok(v) => v,
                    Err(h) => return Err(h),
                };
                let i: u64 = match to_vec_index(&k, span) {
                    Ok(i) => i,
                    Err(e) => return Err(Halt::Fail(e)),
                };
                let (root, len) = match get_root(cx, m, state.as_str(), t) {
                    Ok(p) => p,
                    Err(h) => return Err(h),
                };
                return ask_value(cx, m, request1(Op::Get, t, root, len, Value::U64(i)));
            },
            Type::PMap { key: _, value: vt } => {
                let k = match eval(cx, f, key, m) {
                    Ok(v) => v,
                    Err(h) => return Err(h),
                };
                return get_entry(cx, m, state.as_str(), t, vt, k);
            },
            Type::PBTree { key: _, value: vt } => {
                let k = match eval(cx, f, key, m) {
                    Ok(v) => v,
                    Err(h) => return Err(h),
                };
                return get_entry(cx, m, state.as_str(), t, vt, k);
            },
            _ => {},
        },
        None => {},
    }
    let a = match eval(cx, f, target, m) {
        Ok(v) => v,
        Err(h) => return Err(h),
    };
    let k = match eval(cx, f, key, m) {
        Ok(v) => v,
        Err(h) => return Err(h),
    };
    lift(get_array_item(&a, &k, span))
}

fn lookup(cx: &Setting, fuel: u64, name: &str, span: Span, m: &mut Machine) -> (r: Result<Value, Halt>)
    ensures
        ran(r, old(m)@, final(m)@, lookup_of(*cx, fuel as nat, name@, span, old(m)@)),
    decreases fuel,
{
    if fuel == 0 {
        return Err(Halt::OutOfFuel);
    }
    match m.get_local(name) {
        Some(v) => return Ok(v),
        None => {},
    }
    match find_state(cx, name) {
        Some(t) => return ask_value(cx, m, Request::Read { key: state_cell(name), ty: t.copy() }),
        None => {},
    }
    match find_first(&cx.module.consts, name) {
        Some(k) => {
            let ghost m0 = m@;
            let mut saved: Vec<Vec<(String, Value)>> = Vec::new();
            std::mem::swap(&mut m.scopes, &mut saved);
            assert(scopes_values(saved@) == m0.scopes);
            assert(m@ =~= without_locals(m0));
            match eval(cx, fuel - 1, &cx.module.consts[k].value, m) {
                Ok(v) => {
                    m.scopes = saved;
                    Ok(v)
                },
                Err(h) => Err(h),
            }
        },
        None => Err(halt(concat3("undefined variable '", name, "'"), span)),
    }
}

fn eval_iter_to_array(cx: &Setting, fuel: u64, e: &Expr, m: &mut Machine) -> (r: Result<Value, Halt>)
    ensures
        ran(r, old(m)@, final(m)@, iter_of(*cx, fuel as nat, *e, old(m)@)),
    decreases fuel,
{
    if fuel == 0 {
        return Err(Halt::OutOfFuel);
    }
    let found = match &e.kind {
        ExprKind::Ident(name) => match find_state(cx, name.as_str()) {
            Some(t) => Some((name, t)),
            None => None,
        },
        _ => None,
    };
    match found {
        Some((state, t)) => match t {
            Type::PMap { key: _, value: _ } => return keyed_values(cx, m, state.as_str(), t),
            Type::PBTree { key: _, value: _ } => return keyed_values(cx, m, state.as_str(), t),
            Type::PVec { elem: _ } => {
                let (root, len) = match get_root(cx, m, state.as_str(), t) {
                    Ok(p) => p,
                    Err(h) => return Err(h),
                };
                return match ask_values(cx, m, request0(Op::ToVec, t, root, len)) {
                    Ok(s) => Ok(Value::Array(s)),
                    Err(h) => Err(h),
                };
            },
            _ => {},
        },
        None => {},
    }
    eval(cx, fuel - 1, e, m)
}

/// The values of a keyed state's entries.
pub open spec fn keyed_values_of(cx: Setting, m: MachineView, state: Seq<char>, t: Type) -> Ran<ValueView> {
    match read_root(cx, m, state, t) {
        Err(x) => Err(x),
        Ok((p, m)) => match asked_entries(cx, m, on(Op::Entries, t, p.0, 0, seq![])) {
            Err(x) => Err(x),
            Ok((s, m)) => Ok((ValueView::Array(entry_values(s)), m)),
        },
    }
}

fn keyed_values(cx: &Setting, m: &mut Machine, state: &str, t: &Type) -> (r: Result<Value, Halt>)
    ensures
        ran(r, old(m)@, final(m)@, keyed_values_of(*cx, old(m)@, state@, *t)),
{
    let (root, _) = match get_root(cx, m, state, t) {
        Ok(p) => p,
        Err(h) => return Err(h),
    };
    match ask_entries(cx, m, request0(Op::Entries, t, root, 0)) {
        Ok(s) => Ok(Value::Array(get_entry_values(&s))),
        Err(h) => Err(h),
    }
}

#[verifier::rlimit(60)]
fn eval_state_call(
    cx: &Setting,
    fuel: u64,
    name: &str,
    args: &Vec<Expr>,
    span: Span,
    m: &mut Machine,
) -> (r: Result<Value, Halt>)
    ensures
        ran(r, old(m)@, final(m)@, state_call_of(*cx, fuel as nat, name@, args@, span, old(m)@)),
    decreases fuel,
{
    if fuel == 0 {
        return Err(Halt::OutOfFuel);
    }
    let f: u64 = fuel - 1;
    let (state, t) = match find_state_argument(cx, name, args, span) {
        Ok(p) => p,
        Err(e) => return Err(Halt::Fail(e)),
    };
    let (root, len) = match get_root(cx, m, state.as_str(), t) {
        Ok(p) => p,
        Err(h) => return Err(h),
    };
    if same(name, "pvec_len") {
        return Ok(Value::U64(len));
    }
    if same(name, "pvec_push") {
        if args.len() < 2 {
            return Err(halt(text("pvec_push() takes two arguments"), span));
        }
        let v = match eval(cx, f, &args[1], m) {
            Ok(v) => v,
            Err(h) => return Err(h),
        };
        let (new_root, new_len) = match ask_root_len(cx, m, request1(Op::Push, t, root, len, v)) {
            Ok(q) => q,
            Err(h) => return Err(h),
        };
        return match ask_done(
            cx,
            m,
            Request::WriteCell {
                cell: state_cell(state.as_str()),
                value: Value::PVec { len: new_len, root: new_root },
            },
        ) {
            Ok(_) => Ok(Value::U64(len)),
            Err(h) => Err(h),
        };
    }
    if same(name, "pvec_to_array") {
        return match ask_values(cx, m, request0(Op::ToVec, t, root, len)) {
            Ok(s) => Ok(Value::Array(s)),
            Err(h) => Err(h),
        };
    }
    if same(name, "pmap_contains") || same(name, "pbtree_contains") {
        if args.len() < 2 {
            return Err(halt(concat2(name, "() takes two arguments"), span));
        }
        let k = match eval(cx, f, &args[1], m) {
            Ok(v) => v,
            Err(h) => return Err(h),
        };
        return match ask_flag(cx, m, request1(Op::Contains, t, root, 0, k)) {
            Ok(b) => Ok(Value::Bool(b)),
            Err(h) => Err(h),
        };
    }
    if same(name, "pbtree_range") {
        if args.len() < 3 {
            return Err(halt(text("pbtree_range() takes three arguments"), span));
        }
        let lo = match eval(cx, f, &args[1], m) {
            Ok(v) => v,
            Err(h) => return Err(h),
        };
        let hi = match eval(cx, f, &args[2], m) {
            Ok(v) => v,
            Err(h) => return Err(h),
        };
        return match ask_values(cx, m, request2(Op::Range, t, root, 0, lo, hi)) {
            Ok(s) => Ok(Value::Array(s)),
            Err(h) => Err(h),
        };
    }
    match ask_entries(cx, m, request0(Op::Entries, t, root, 0)) {
        Ok(s) => Ok(
            Value::Array(
                if same(name, "pmap_entries") {
                    get_entry_tuples(&s)
                } else if same(name, "pmap_keys") {
                    get_entry_keys(&s)
                } else {
                    get_entry_values(&s)
                },
            ),
        ),
        Err(h) => Err(h),
    }
}

/// Calls a builtin, a host function, or a function of the module.
pub fn call(cx: &Setting, fuel: u64, name: &str, args: Vec<Value>, m: &mut Machine) -> (r: Result<Value, Halt>)
    ensures
        ran(r, old(m)@, final(m)@, call_of(*cx, fuel as nat, name@, views(args@), old(m)@)),
    decreases fuel,
{
    if fuel == 0 {
        return Err(Halt::OutOfFuel);
    }
    let hides = if same(name, "sum") || same(name, "max") || same(name, "min") {
        find_first(&cx.module.functions, name).is_some()
    } else {
        false
    };
    if !hides {
        match try_builtin(cx, name, &args) {
            Ok(Some(v)) => return Ok(v),
            Ok(None) => {},
            Err(e) => return Err(Halt::Fail(e)),
        }
    }
    if find_last(&cx.module.imports, name).is_some() {
        return match ask_host(cx, m, Request::Host { name: text(name), args }) {
            Ok(Ok(v)) => Ok(v),
            Ok(Err(msg)) => {
                let mut s = concat3("host '", name, "': ");
                s.append(msg.as_str());
                Err(halt(s, Span::default()))
            },
            Err(h) => Err(h),
        };
    }
    match find_first(&cx.module.functions, name) {
        None => Err(halt(concat3("unknown function '", name, "'"), Span::default())),
        Some(k) => call_fn(cx, fuel - 1, k, args, m),
    }
}

fn call_fn(cx: &Setting, fuel: u64, k: usize, args: Vec<Value>, m: &mut Machine) -> (r: Result<Value, Halt>)
    requires
        k < cx.module.functions@.len(),
    ensures
        ran(r, old(m)@, final(m)@, fn_call_of(*cx, fuel as nat, k as int, views(args@), old(m)@)),
    decreases fuel,
{
    if fuel == 0 {
        return Err(Halt::OutOfFuel);
    }
    assert(views(args@).len() == args@.len());
    let g = &cx.module.functions[k];
    if g.params.len() != args.len() {
        let mut s = concat3("function '", g.name.as_str(), "' expects ");
        push_decimal(&mut s, g.params.len() as u128);
        s.append(" arg(s), got ");
        push_decimal(&mut s, args.len() as u128);
        return Err(halt(s, g.span));
    }
    if g.is_nore {
        if is_entered(&m.entered, k) {
            return Err(
                halt(
                    concat3("re-entry into non-reentrant function '", g.name.as_str(), "'"),
                    g.span,
                ),
            );
        }
        m.entered.push(k);
    }
    let ghost m0 = old(m)@;
    let mut saved: Vec<Vec<(String, Value)>> = Vec::new();
    std::mem::swap(&mut m.scopes, &mut saved);
    assert(scopes_values(saved@) == m0.scopes);
    m.open();
    assert(m@.scopes =~= seq![Map::empty()]);
    bind_params(m, &g.params, &args);
    assert(m@ == inside(*cx, m0, k as int, views(args@)));
    let flow = match exec_block_with_tail(cx, fuel - 1, &g.body, true, m) {
        Ok(flow) => flow,
        Err(h) => return Err(h),
    };
    let ghost inner = m@;
    m.scopes = saved;
    if g.is_nore {
        let _ = m.entered.pop();
        assert(m@.entered =~= m0.entered);
    }
    assert(m@ =~= after_call(*cx, m0, k as int, inner));
    match flow {
        Flow::Normal(v) => Ok(v),
        Flow::Return(v) => Ok(v),
        _ => Err(halt(text("break/continue outside of a loop"), g.span)),
    }
}

fn is_entered(s: &Vec<usize>, k: usize) -> (r: bool)
    ensures
        r == s@.contains(k),
{
    let mut i: usize = 0;
    while i < s.len()
        invariant
            i <= s@.len(),
            forall|j: int| 0 <= j < i ==> s@[j] != k,
        decreases s@.len() - i,
    {
        if s[i] == k {
            return true;
        }
        i = i + 1;
    }
    false
}

fn eval_block(cx: &Setting, fuel: u64, b: &Block, span: Span, m: &mut Machine) -> (r: Result<Value, Halt>)
    ensures
        ran(r, old(m)@, final(m)@, block_value_of(*cx, fuel as nat, *b, span, old(m)@)),
    decreases fuel,
{
    if fuel == 0 {
        return Err(Halt::OutOfFuel);
    }
    let f: u64 = fuel - 1;
    m.open();
    let flow = match exec_stmts(cx, f, &b.stmts, m) {
        Ok(flow) => flow,
        Err(h) => return Err(h),
    };
    match flow {
        Flow::Normal(_) => match &b.tail {
            Some(t) => match eval(cx, f, t, m) {
                Ok(v) => {
                    m.close();
                    Ok(v)
                },
                Err(h) => Err(h),
            },
            None => {
                m.close();
                Ok(Value::Unit)
            },
        },
        Flow::Return(v) => {
            m.close();
            Ok(v)
        },
        _ => Err(halt(text("break/continue inside block expression"), span)),
    }
}

fn eval_if(
    cx: &Setting,
    fuel: u64,
    cond: &Expr,
    then_block: &Block,
    else_branch: &ElseBranch,
    span: Span,
    m: &mut Machine,
) -> (r: Result<Value, Halt>)
    ensures
        ran(r, old(m)@, final(m)@, if_value_of(*cx, fuel as nat, *cond, *then_block, *else_branch, span, old(m)@)),
    decreases fuel,
{
    if fuel == 0 {
        return Err(Halt::OutOfFuel);
    }
    let f: u64 = fuel - 1;
    let c = match eval(cx, f, cond, m) {
        Ok(v) => v,
        Err(h) => return Err(h),
    };
    let yes = match c {
        Value::Bool(b) => b,
        _ => false,
    };
    if yes {
        return eval_block(cx, f, then_block, then_block.span, m);
    }
    match else_branch {
        ElseBranch::Absent => Err(halt(text("if-expression missing else branch"), span)),
        ElseBranch::Block(b) => eval_block(cx, f, b, b.span, m),
        ElseBranch::If(i) => eval_if(cx, f, &i.cond, &i.then_block, &i.else_branch, i.span, m),
    }
}

fn walk_comp_clauses(
    cx: &Setting,
    fuel: u64,
    e: &Expr,
    clauses: &Vec<CompClause>,
    i: usize,
    acc: Value,
    m: &mut Machine,
) -> (r: Result<Value, Halt>)
    ensures
        ran(r, old(m)@, final(m)@, comp_of(*cx, fuel as nat, *e, clauses@, i as nat, acc@, old(m)@)),
    decreases fuel,
{
    if fuel == 0 {
        return Err(Halt::OutOfFuel);
    }
    let f: u64 = fuel - 1;
    if i >= clauses.len() {
        return emit_comp_item(cx, f, e, acc, m);
    }
    match &clauses[i] {
        CompClause::For { var, iter } => match eval_iter_to_array(cx, f, iter, m) {
            Ok(v) => match &v {
                Value::Array(s) => run_comp_each(cx, f, e, clauses, i, var.as_str(), s, acc, m),
                _ => Err(halt(text("comprehension iterator must be an array"), iter.span)),
            },
            Err(h) => Err(h),
        },
        CompClause::If(cond) => match eval(cx, f, cond, m) {
            Ok(v) => match &v {
                Value::Bool(b) => if *b {
                    walk_comp_clauses(cx, f, e, clauses, i + 1, acc, m)
                } else {
                    Ok(acc)
                },
                _ => Err(
                    halt(
                        concat2("comprehension filter must be bool, got ", v.to_string().as_str()),
                        cond.span,
                    ),
                ),
            },
            Err(h) => Err(h),
        },
    }
}

fn run_comp_each(
    cx: &Setting,
    fuel: u64,
    e: &Expr,
    clauses: &Vec<CompClause>,
    i: usize,
    var: &str,
    s: &Vec<Value>,
    acc: Value,
    m: &mut Machine,
) -> (r: Result<Value, Halt>)
    requires
        i < clauses@.len(),
    ensures
        ran(
            r,
            old(m)@,
            final(m)@,
            comp_each_of(*cx, fuel as nat, *e, clauses@, i as nat, var@, views(s@), 0, acc@, old(m)@),
        ),
    decreases fuel,
{
    if fuel == 0 {
        return Err(Halt::OutOfFuel);
    }
    let mut cur = acc;
    let mut j: usize = 0;
    let n: usize = clauses.len();
    assert(views(s@).len() == s@.len());
    while j < s.len()
        invariant
            j <= s@.len(),
            i < n == clauses@.len(),
            fuel > 0,
            views(s@).len() == s@.len(),
            level(m@, old(m)@),
            comp_each_of(*cx, fuel as nat, *e, clauses@, i as nat, var@, views(s@), 0, acc@, old(m)@)
                == comp_each_of(*cx, fuel as nat, *e, clauses@, i as nat, var@, views(s@), j as nat, cur@, m@),
        decreases s@.len() - j,
    {
        assert(views(s@)[j as int] == value_view(s@[j as int]));
        m.open();
        m.bind(var, s[j].copy());
        cur = match walk_comp_clauses(cx, fuel - 1, e, clauses, i + 1, cur, m) {
            Ok(v) => v,
            Err(h) => return Err(h),
        };
        m.close();
        j = j + 1;
    }
    Ok(cur)
}

fn emit_comp_item(cx: &Setting, fuel: u64, e: &Expr, acc: Value, m: &mut Machine) -> (r: Result<Value, Halt>)
    ensures
        ran(r, old(m)@, final(m)@, comp_item_of(*cx, fuel as nat, *e, acc@, old(m)@)),
    decreases fuel,
{
    if fuel == 0 {
        return Err(Halt::OutOfFuel);
    }
    let f: u64 = fuel - 1;
    match (&e.kind, acc) {
        (ExprKind::ListComp { mapper, clauses: _ }, Value::Array(mut s)) => match eval(cx, f, mapper, m) {
            Ok(v) => {
                let ghost before = views(s@);
                let ghost x = v@;
                s.push(v);
                assert(views(s@) =~= before.push(x));
                Ok(Value::Array(s))
            },
            Err(h) => Err(h),
        },
        (ExprKind::SetComp { mapper, clauses: _ }, Value::SetOf(mut s)) => match eval(cx, f, mapper, m) {
            Ok(v) => {
                add_member(&mut s, v);
                Ok(Value::SetOf(s))
            },
            Err(h) => Err(h),
        },
        (ExprKind::DictComp { key, value, clauses: _ }, Value::Dict(mut s)) => {
            let k = match eval(cx, f, key, m) {
                Ok(v) => v,
                Err(h) => return Err(h),
            };
            match eval(cx, f, value, m) {
                Ok(v) => {
                    add_entry(&mut s, k, v);
                    Ok(Value::Dict(s))
                },
                Err(h) => Err(h),
            }
        },
        (_, acc) => Ok(acc),
    }
}

fn exec_stmts(cx: &Setting, fuel: u64, s: &Vec<Stmt>, m: &mut Machine) -> (r: Result<Flow, Halt>)
    requires
        old(m)@.scopes.len() > 0,
    ensures
        ran_flow(r, old(m)@, final(m)@, stmts_of(*cx, fuel as nat, s@, 0, old(m)@)),
    decreases fuel,
{
    if fuel == 0 {
        return Err(Halt::OutOfFuel);
    }
    let mut i: usize = 0;
    while i < s.len()
        invariant
            i <= s@.len(),
            fuel > 0,
            level(m@, old(m)@),
            old(m)@.scopes.len() > 0,
            stmts_of(*cx, fuel as nat, s@, 0, old(m)@) == stmts_of(*cx, fuel as nat, s@, i as nat, m@),
        decreases s@.len() - i,
    {
        match exec_stmt(cx, fuel - 1, &s[i], m) {
            Ok(flow) => match flow {
                Flow::Normal(_) => {},
                _ => return Ok(flow),
            },
            Err(h) => return Err(h),
        }
        i = i + 1;
    }
    Ok(Flow::Normal(Value::Unit))
}

fn exec_block_with_tail(
    cx: &Setting,
    fuel: u64,
    b: &Block,
    returns_tail: bool,
    m: &mut Machine,
) -> (r: Result<Flow, Halt>)
    ensures
        ran_flow(r, old(m)@, final(m)@, block_flow_of(*cx, fuel as nat, *b, returns_tail, old(m)@)),
    decreases fuel,
{
    if fuel == 0 {
        return Err(Halt::OutOfFuel);
    }
    let f: u64 = fuel - 1;
    m.open();
    let flow = match exec_stmts(cx, f, &b.stmts, m) {
        Ok(flow) => flow,
        Err(h) => return Err(h),
    };
    match flow {
        Flow::Normal(_) => match &b.tail {
            Some(t) => match eval(cx, f, t, m) {
                Ok(v) => {
                    m.close();
                    if returns_tail {
                        Ok(Flow::Return(v))
                    } else {
                        Ok(Flow::Normal(v))
                    }
                },
                Err(h) => Err(h),
            },
            None => {
                m.close();
                Ok(Flow::Normal(Value::Unit))
            },
        },
        _ => {
            m.close();
            Ok(flow)
        },
    }
}

/// Runs a statement.
#[verifier::rlimit(60)]
#[verifier::spinoff_prover]
pub fn exec_stmt(cx: &Setting, fuel: u64, s: &Stmt, m: &mut Machine) -> (r: Result<Flow, Halt>)
    requires
        old(m)@.scopes.len() > 0,
    ensures
        ran_flow(r, old(m)@, final(m)@, stmt_of(*cx, fuel as nat, *s, old(m)@)),
    decreases fuel,
{
    if fuel == 0 {
        return Err(Halt::OutOfFuel);
    }
    let f: u64 = fuel - 1;
    match s {
        Stmt::Let { name, ty: _, value, span: _ } => match eval(cx, f, value, m) {
            Ok(v) => {
                m.bind(name.as_str(), v);
                Ok(Flow::Normal(Value::Unit))
            },
            Err(h) => Err(h),
        },
        Stmt::Assign { target, value, span: _ } => {
            let v = match eval(cx, f, value, m) {
                Ok(v) => v,
                Err(h) => return Err(h),
            };
            match assign_path(cx, f, target, v, m) {
            Ok(_) => Ok(Flow::Normal(Value::Unit)),
            Err(h) => Err(h),
        }
        },
        Stmt::Return { value, span: _ } => match value {
            Some(e) => match eval(cx, f, e, m) {
                Ok(v) => Ok(Flow::Return(v)),
                Err(h) => Err(h),
            },
            None => Ok(Flow::Return(Value::Unit)),
        },
        Stmt::If(i) => exec_if(cx, f, i, m),
        Stmt::While { cond, body, span } => exec_while(cx, f, cond, body, *span, m),
        Stmt::For { var, iter, body, span } => match eval_iter_to_array(cx, f, iter, m) {
            Ok(v) => match &v {
                Value::Array(s) => exec_each(cx, f, var.as_str(), s, body, m),
                _ => Err(halt(text("for-in iterator must be an array"), *span)),
            },
            Err(h) => Err(h),
        },
        Stmt::ForRange { var, start, end, inclusive, body, span } => {
            let a = match eval(cx, f, start, m) {
                Ok(v) => v,
                Err(h) => return Err(h),
            };
            let b = match eval(cx, f, end, m) {
                Ok(v) => v,
                Err(h) => return Err(h),
            };
            match find_bounds(&a, &b) {
                Some((kind, lo, hi)) => exec_range(cx, f, var.as_str(), kind, lo, &hi, *inclusive, body, m),
                None => Err(halt(text("range bounds must be the same integer type"), *span)),
            }
        },
        Stmt::Break(_) => Ok(Flow::Break),
        Stmt::Continue(_) => Ok(Flow::Continue),
        Stmt::Placeholder(span) => Err(halt(text("`_;` left in a function body"), *span)),
        Stmt::Expr(e) => match eval(cx, f, e, m) {
            Ok(_) => Ok(Flow::Normal(Value::Unit)),
            Err(h) => Err(h),
        },
        Stmt::Parallel { stmts, span: _ } => exec_stmts(cx, f, stmts, m),
        Stmt::ParallelForTo { id_var, source, output, body, span } => exec_parallel_for(
            cx,
            f,
            id_var.as_str(),
            source,
            output,
            body,
            *span,
            m,
        ),
        Stmt::Emit { value, span } => {
            let v = match eval(cx, f, value, m) {
                Ok(v) => v,
                Err(h) => return Err(h),
            };
            match &v {
                Value::Struct { name, fields } => {
                    let request = Request::Emit {
                        module: find_module_name(cx),
                        name: name.clone(),
                        args: get_field_values(fields),
                    };
                    match ask_done(cx, m, request) {
                        Ok(_) => {},
                        Err(h) => return Err(h),
                    }
                    match dispatch_handlers(cx, f, name.as_str(), &v, m) {
            Ok(_) => Ok(Flow::Normal(Value::Unit)),
            Err(h) => Err(h),
        }
                },
                _ => Err(
                    halt(concat2("emit expected a struct value, got ", v.to_string().as_str()), *span),
                ),
            }
        },
        Stmt::Delete { target, span } => match exec_delete(cx, f, target, *span, m) {
            Ok(_) => Ok(Flow::Normal(Value::Unit)),
            Err(h) => Err(h),
        },
        Stmt::LetTuple { names, value, span } => {
            let v = match eval(cx, f, value, m) {
                Ok(v) => v,
                Err(h) => return Err(h),
            };
            match &v {
                Value::Tuple(s) => {
                    assert(views(s@).len() == s@.len());
                    if s.len() != names.len() {
                        return Err(halt(text("tuple destructure arity mismatch"), *span));
                    }
                    let ghost before = m@;
                    m.bind_all(names, s, names.len());
                    proof {
                        lemma_locals_keep_pipe(before, names@, views(s@), names@.len());
                    }
                    Ok(Flow::Normal(Value::Unit))
                },
                _ => Err(
                    halt(concat2("destructure: expected tuple, got ", v.to_string().as_str()), *span),
                ),
            }
        },
    }
}

fn exec_if(cx: &Setting, fuel: u64, i: &IfStmt, m: &mut Machine) -> (r: Result<Flow, Halt>)
    ensures
        ran_flow(r, old(m)@, final(m)@, if_flow_of(*cx, fuel as nat, *i, old(m)@)),
    decreases fuel,
{
    if fuel == 0 {
        return Err(Halt::OutOfFuel);
    }
    let f: u64 = fuel - 1;
    let c = match eval(cx, f, &i.cond, m) {
        Ok(v) => v,
        Err(h) => return Err(h),
    };
    match &c {
        Value::Bool(b) => if *b {
            exec_block_with_tail(cx, f, &i.then_block, false, m)
        } else {
            match &i.else_branch {
                ElseBranch::Absent => Ok(Flow::Normal(Value::Unit)),
                ElseBranch::Block(b) => exec_block_with_tail(cx, f, b, false, m),
                ElseBranch::If(inner) => exec_if(cx, f, inner, m),
            }
        },
        _ => Err(halt(concat2("if condition must be bool, got ", c.to_string().as_str()), i.span)),
    }
}

fn exec_while(
    cx: &Setting,
    fuel: u64,
    cond: &Expr,
    body: &Block,
    span: Span,
    m: &mut Machine,
) -> (r: Result<Flow, Halt>)
    ensures
        ran_flow(r, old(m)@, final(m)@, while_of(*cx, fuel as nat, *cond, *body, span, old(m)@)),
    decreases fuel,
{
    let mut left: u64 = fuel;
    while left > 0
        invariant
            left <= fuel,
            level(m@, old(m)@),
            while_of(*cx, fuel as nat, *cond, *body, span, old(m)@) == while_of(
                *cx,
                left as nat,
                *cond,
                *body,
                span,
                m@,
            ),
        decreases left,
    {
        left = left - 1;
        let c = match eval(cx, left, cond, m) {
            Ok(v) => v,
            Err(h) => return Err(h),
        };
        match &c {
            Value::Bool(b) => {
                if !*b {
                    return Ok(Flow::Normal(Value::Unit));
                }
                match exec_block_with_tail(cx, left, body, false, m) {
                    Ok(flow) => match flow {
                        Flow::Break => return Ok(Flow::Normal(Value::Unit)),
                        Flow::Return(v) => return Ok(Flow::Return(v)),
                        _ => {},
                    },
                    Err(h) => return Err(h),
                }
            },
            _ => return Err(
                halt(concat2("while condition must be bool, got ", c.to_string().as_str()), span),
            ),
        }
    }
    Err(Halt::OutOfFuel)
}

fn exec_each(
    cx: &Setting,
    fuel: u64,
    var: &str,
    s: &Vec<Value>,
    body: &Block,
    m: &mut Machine,
) -> (r: Result<Flow, Halt>)
    ensures
        ran_flow(r, old(m)@, final(m)@, each_of(*cx, fuel as nat, var@, views(s@), 0, *body, old(m)@)),
    decreases fuel,
{
    if fuel == 0 {
        return Err(Halt::OutOfFuel);
    }
    let mut i: usize = 0;
    assert(views(s@).len() == s@.len());
    while i < s.len()
        invariant
            i <= s@.len(),
            fuel > 0,
            views(s@).len() == s@.len(),
            level(m@, old(m)@),
            each_of(*cx, fuel as nat, var@, views(s@), 0, *body, old(m)@) == each_of(
                *cx, fuel as nat,
                var@,
                views(s@),
                i as nat,
                *body,
                m@,
            ),
        decreases s@.len() - i,
    {
        assert(views(s@)[i as int] == value_view(s@[i as int]));
        m.open();
        m.bind(var, s[i].copy());
        let flow = match exec_block_with_tail(cx, fuel - 1, body, false, m) {
            Ok(flow) => flow,
            Err(h) => return Err(h),
        };
        m.close();
        match flow {
            Flow::Break => return Ok(Flow::Normal(Value::Unit)),
            Flow::Return(v) => return Ok(Flow::Return(v)),
            _ => {},
        }
        i = i + 1;
    }
    Ok(Flow::Normal(Value::Unit))
}

#[verifier::rlimit(30)]
fn exec_range(
    cx: &Setting,
    fuel: u64,
    var: &str,
    kind: u8,
    lo: BigInt,
    hi: &BigInt,
    inclusive: bool,
    body: &Block,
    m: &mut Machine,
) -> (r: Result<Flow, Halt>)
    requires
        in_kind(kind as int, lo@),
        in_kind(kind as int, hi@),
    ensures
        ran_flow(
            r,
            old(m)@,
            final(m)@,
            range_of(*cx, fuel as nat, var@, kind as int, lo@, hi@, inclusive, *body, old(m)@),
        ),
    decreases fuel,
{
    if fuel == 0 {
        return Err(Halt::OutOfFuel);
    }
    let one = BigInt::from_i64(1);
    let mut i = lo.copy();
    while i.less(hi) || (inclusive && i.same(hi))
        invariant
            fuel > 0,
            one@ == 1,
            in_kind(kind as int, hi@),
            in_kind(kind as int, lo@),
            i@ >= lo@,
            level(m@, old(m)@),
            range_of(*cx, fuel as nat, var@, kind as int, lo@, hi@, inclusive, *body, old(m)@) == range_of(
                *cx, fuel as nat,
                var@,
                kind as int,
                i@,
                hi@,
                inclusive,
                *body,
                m@,
            ),
        decreases (if i@ <= hi@ { hi@ - i@ + 1 } else { 0 }),
    {
        m.open();
        m.bind(var, make_range_value(kind, &i));
        let flow = match exec_block_with_tail(cx, fuel - 1, body, false, m) {
            Ok(flow) => flow,
            Err(h) => return Err(h),
        };
        m.close();
        match flow {
            Flow::Break => return Ok(Flow::Normal(Value::Unit)),
            Flow::Return(v) => return Ok(Flow::Return(v)),
            _ => {},
        }
        i = i.plus(&one);
    }
    Ok(Flow::Normal(Value::Unit))
}

fn exec_parallel_for(
    cx: &Setting,
    fuel: u64,
    var: &str,
    source: &Expr,
    output: &Expr,
    body: &Block,
    span: Span,
    m: &mut Machine,
) -> (r: Result<Flow, Halt>)
    ensures
        ran_flow(r, old(m)@, final(m)@, par_of(*cx, fuel as nat, var@, *source, *output, *body, span, old(m)@)),
    decreases fuel,
{
    if fuel == 0 {
        return Err(Halt::OutOfFuel);
    }
    let f: u64 = fuel - 1;
    let v = match eval(cx, f, source, m) {
        Ok(v) => v,
        Err(h) => return Err(h),
    };
    let src = match v {
        Value::Array(s) => s,
        _ => return Err(
            halt(text("parallel-for source must evaluate to an array"), source.span),
        ),
    };
    let (name, out) = match find_output_array(output, m) {
        Ok(p) => p,
        Err(e) => return Err(Halt::Fail(e)),
    };
    assert(views(src@).len() == src@.len());
    assert(views(out@).len() == out@.len());
    if out.len() != src.len() {
        let mut s = concat_num("parallel-for source length ", src.len() as u128, " != output length ");
        push_decimal(&mut s, out.len() as u128);
        return Err(halt(s, span));
    }
    match run_parallel_each(cx, f, var, &src, out, body, m) {
        Ok(Ok(v)) => Ok(Flow::Return(v)),
        Ok(Err(out)) => {
            match m.find_inner(name.as_str()) {
                Some((i, _)) => m.put_in(i, name.as_str(), Value::Array(out)),
                None => {},
            }
            Ok(Flow::Normal(Value::Unit))
        },
        Err(h) => Err(h),
    }
}

#[verifier::rlimit(30)]
fn run_parallel_each(
    cx: &Setting,
    fuel: u64,
    var: &str,
    src: &Vec<Value>,
    out: Vec<Value>,
    body: &Block,
    m: &mut Machine,
) -> (r: Result<
    Result<Value, Vec<Value>>,
    Halt,
>)
    requires
        out@.len() == src@.len(),
    ensures
        match par_each_of(*cx, fuel as nat, var@, views(src@), 0, views(out@), *body, old(m)@) {
            Ok((x, m2)) => final(m)@ == m2 && level(m2, old(m)@) && match r {
                Ok(y) => match (x, y) {
                    (Ok(a), Ok(b)) => value_view(b) == a,
                    (Err(a), Err(b)) => views(b@) == a,
                    _ => false,
                },
                Err(_) => false,
            },
            Err(s) => match r {
                Ok(_) => false,
                Err(h) => h@ == s,
            },
        },
    decreases fuel,
{
    if fuel == 0 {
        return Err(Halt::OutOfFuel);
    }
    let mut cur = out;
    let ghost start = views(out@);
    let mut i: usize = 0;
    assert(views(src@).len() == src@.len());
    while i < src.len()
        invariant
            i <= src@.len(),
            cur@.len() == src@.len(),
            fuel > 0,
            views(src@).len() == src@.len(),
            level(m@, old(m)@),
            start == views(out@),
            par_each_of(*cx, fuel as nat, var@, views(src@), 0, start, *body, old(m)@) == par_each_of(
                *cx, fuel as nat,
                var@,
                views(src@),
                i as nat,
                views(cur@),
                *body,
                m@,
            ),
        decreases src@.len() - i,
    {
        assert(views(src@)[i as int] == value_view(src@[i as int]));
        m.open();
        m.bind(var, src[i].copy());
        let flow = match exec_block_with_tail(cx, fuel - 1, body, false, m) {
            Ok(flow) => flow,
            Err(h) => return Err(h),
        };
        m.close();
        match flow {
            Flow::Normal(v) => {
                let ghost before = views(cur@);
                let ghost x = value_view(v);
                cur.set(i, v);
                assert(views(cur@) =~= before.update(i as int, x));
            },
            Flow::Continue => {},
            Flow::Break => return Ok(Err(cur)),
            Flow::Return(v) => return Ok(Ok(v)),
        }
        i = i + 1;
    }
    Ok(Err(cur))
}

fn dispatch_handlers(cx: &Setting, fuel: u64, name: &str, v: &Value, m: &mut Machine) -> (r: Result<(), Halt>)
    ensures
        ran_unit(r, old(m)@, final(m)@, handlers_of(*cx, fuel as nat, 0, name@, v@, old(m)@)),
    decreases fuel,
{
    if fuel == 0 {
        return Err(Halt::OutOfFuel);
    }
    let module = find_module_name(cx);
    let mut i: usize = 0;
    while i < cx.module.handlers.len()
        invariant
            i <= cx.module.handlers@.len(),
            fuel > 0,
            module@ == module_name(*cx),
            level(m@, old(m)@),
            handlers_of(*cx, fuel as nat, 0, name@, v@, old(m)@) == handlers_of(
                *cx,
                fuel as nat,
                i as nat,
                name@,
                v@,
                m@,
            ),
        decreases cx.module.handlers@.len() - i,
    {
        let h = &cx.module.handlers[i];
        if does_handle(h, name, module.as_str()) {
            let mut args: Vec<Value> = Vec::new();
            args.push(v.copy());
            assert(views(args@) =~= seq![v@]);
            match call(cx, fuel - 1, h.fn_def.name.as_str(), args, m) {
                Ok(_) => {},
                Err(h) => return Err(h),
            }
        }
        i = i + 1;
    }
    Ok(())
}

fn exec_delete(cx: &Setting, fuel: u64, target: &Expr, span: Span, m: &mut Machine) -> (r: Result<(), Halt>)
    ensures
        ran_unit(r, old(m)@, final(m)@, delete_of(*cx, fuel as nat, *target, span, old(m)@)),
    decreases fuel,
{
    if fuel == 0 {
        return Err(Halt::OutOfFuel);
    }
    match &target.kind {
        ExprKind::Index { target: t, key } => match &t.kind {
            ExprKind::Ident(state) => {
                let k = match eval(cx, fuel - 1, key, m) {
                    Ok(v) => v,
                    Err(h) => return Err(h),
                };
                let ty = match find_state(cx, state.as_str()) {
                    Some(t) => t,
                    None => return Err(
                        halt(concat3("'", state.as_str(), "' is not a state"), span),
                    ),
                };
                match ty {
                    Type::PMap { key: _, value: _ } => do_delete(cx, m, state.as_str(), ty, k),
                    Type::PBTree { key: _, value: _ } => do_delete(cx, m, state.as_str(), ty, k),
                    _ => Err(
                        halt(
                            concat3("delete: '", state.as_str(), "' is not a pmap or pbtree state"),
                            span,
                        ),
                    ),
                }
            },
            _ => Err(halt(text("delete target must be a state slot"), span)),
        },
        _ => Err(halt(text("delete target must be `state[key]`"), span)),
    }
}

#[verifier::rlimit(60)]
fn assign_path(cx: &Setting, fuel: u64, target: &Expr, v: Value, m: &mut Machine) -> (r: Result<(), Halt>)
    ensures
        ran_unit(r, old(m)@, final(m)@, assign_of(*cx, fuel as nat, *target, v@, old(m)@)),
    decreases fuel,
{
    if fuel == 0 {
        return Err(Halt::OutOfFuel);
    }
    let f: u64 = fuel - 1;
    match &target.kind {
        ExprKind::Ident(name) => match m.find_inner(name.as_str()) {
            Some((i, _)) => {
                m.put_in(i, name.as_str(), v);
                Ok(())
            },
            None => match find_state(cx, name.as_str()) {
                Some(t) => ask_done(
                    cx,
                    m,
                    Request::Write { key: state_cell(name.as_str()), ty: t.copy(), value: v },
                ),
                None => Err(
                    halt(concat3("undefined variable '", name.as_str(), "'"), target.span),
                ),
            },
        },
        ExprKind::Index { target: t, key } => match &t.kind {
            ExprKind::Ident(state) => match eval(cx, f, key, m) {
                Ok(k) => store(cx, m, state.as_str(), k, v, target.span),
                Err(h) => Err(h),
            },
            _ => Err(halt(text("indexed assignment target must be a state"), target.span)),
        },
        ExprKind::Field { target: inner, name } => match find_state_place(cx, m, target) {
            Some((key, t)) => ask_done(cx, m, Request::Write { key, ty: t.copy(), value: v }),
            None => {
                let p = match eval(cx, f, inner, m) {
                    Ok(p) => p,
                    Err(h) => return Err(h),
                };
                match p {
                    Value::Struct { name: sname, mut fields } => match find_field(&fields, name.as_str()) {
                        Some(k) => {
                            let ghost before = field_views(fields@);
                            let ghost x = v@;
                            let fname = fields[k].0.clone();
                            fields.set(k, (fname, v));
                            assert(field_views(fields@) =~= before.update(k as int, (before[k as int].0, x)));
                            assign_path(cx, f, inner, Value::Struct { name: sname, fields }, m)
                        },
                        None => Err(halt(concat3("no field '", name.as_str(), "'"), target.span)),
                    },
                    _ => Err(halt(text("field assignment on non-struct"), inner.span)),
                }
            },
        },
        _ => Err(halt(text("invalid assignment target"), target.span)),
    }
}

/// An event that waits for its handlers.
#[derive(Debug)]
pub struct PendingEmit {
    pub module: String,
    pub struct_name: String,
    pub value: Value,
}

/// Whether a handler takes a waiting event; a handler that names no module takes
/// those of its own.
pub open spec fn takes(cx: Setting, h: HandlerDecl, e: PendingEmit) -> bool {
    h.event_type@ == e.struct_name@ && match h.event_module {
        Some(m) => m@ == e.module@,
        None => e.module@ == module_name(cx),
    }
}

/// The calls of the handlers of a waiting event, from the `i`-th handler on.
pub open spec fn pending_of(cx: Setting, fuel: nat, e: PendingEmit, i: nat, m: MachineView) -> Ran<()>
    decreases cx.module.handlers@.len() - i,
{
    if i >= cx.module.handlers@.len() {
        Ok(((), m))
    } else if !takes(cx, cx.module.handlers@[i as int], e) {
        pending_of(cx, fuel, e, i + 1, m)
    } else {
        match call_of(
            cx,
            fuel,
            cx.module.handlers@[i as int].fn_def.name@,
            seq![value_view(e.value)],
            m,
        ) {
            Err(x) => Err(x),
            Ok((v, m)) => pending_of(cx, fuel, e, i + 1, m),
        }
    }
}

/// The waiting events in turn, from the `i`-th on.
pub open spec fn drained(cx: Setting, fuel: nat, s: Seq<PendingEmit>, i: nat, m: MachineView) -> Ran<()>
    decreases s.len() - i,
{
    if i >= s.len() {
        Ok(((), m))
    } else {
        match pending_of(cx, fuel, s[i as int], 0, m) {
            Err(x) => Err(x),
            Ok((u, m)) => drained(cx, fuel, s, i + 1, m),
        }
    }
}

fn dispatch_pending(cx: &Setting, fuel: u64, e: &PendingEmit, m: &mut Machine) -> (r: Result<(), Halt>)
    ensures
        ran_unit(r, old(m)@, final(m)@, pending_of(*cx, fuel as nat, *e, 0, old(m)@)),
{
    let own = find_module_name(cx);
    let mut i: usize = 0;
    while i < cx.module.handlers.len()
        invariant
            i <= cx.module.handlers@.len(),
            own@ == module_name(*cx),
            level(m@, old(m)@),
            pending_of(*cx, fuel as nat, *e, 0, old(m)@) == pending_of(*cx, fuel as nat, *e, i as nat, m@),
        decreases cx.module.handlers@.len() - i,
    {
        let h = &cx.module.handlers[i];
        let wants = same(h.event_type.as_str(), e.struct_name.as_str()) && match &h.event_module {
            Some(module) => same(module.as_str(), e.module.as_str()),
            None => same(e.module.as_str(), own.as_str()),
        };
        if wants {
            let mut args: Vec<Value> = Vec::new();
            args.push(e.value.copy());
            assert(views(args@) =~= seq![value_view(e.value)]);
            match call(cx, fuel, h.fn_def.name.as_str(), args, m) {
                Ok(_) => {},
                Err(h) => return Err(h),
            }
        }
        i = i + 1;
    }
    Ok(())
}

/// Hands each waiting event to its handlers, in the order of their declarations.
pub fn drain_pending_emits(cx: &Setting, fuel: u64, batch: &Vec<PendingEmit>, m: &mut Machine) -> (r: Result<(), Halt>)
    ensures
        ran_unit(r, old(m)@, final(m)@, drained(*cx, fuel as nat, batch@, 0, old(m)@)),
{
    let mut i: usize = 0;
    while i < batch.len()
        invariant
            i <= batch@.len(),
            level(m@, old(m)@),
            drained(*cx, fuel as nat, batch@, 0, old(m)@) == drained(*cx, fuel as nat, batch@, i as nat, m@),
        decreases batch@.len() - i,
    {
        match dispatch_pending(cx, fuel, &batch[i], m) {
            Ok(_) => {},
            Err(h) => return Err(h),
        }
        i = i + 1;
    }
    Ok(())
}

} // verus!
