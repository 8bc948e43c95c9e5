//! The code of expressions, statements and loops.

use vstd::prelude::*;
use vstd::utf8::encode_utf8;
use crate::ast::{
    BinOp, Block, CompClause, ElseBranch, Expr, ExprKind, FnDef, IfStmt, IndexDecl, IndexKind, MatchArm,
    MatchPattern, Module, SortDirection, Stmt, StructField, Type, type_view,
};
use crate::bc::{Const, ConstView, Instr};
use crate::bigint::BigInt;
use crate::builder::{
    Builder, BuilderView, Built, LoopFrame, LoopView, PathView, ScopeRegs, allocated, bound, built,
    const_index, dropped, emitted, freed, grown, last_pipe, lemma_locals_aside, local_reg, loop_closed,
    loop_opened, names_of, patched, patched_all, path_number, pipe_closed, pipe_opened, restored,
    scope_closed, scope_opened, scopes_regs, sound, type_err, type_error, with_break, with_const,
    with_continue, with_locals_of, with_path, without_locals,
};
use crate::error::{Error, ErrorView};
use crate::hashing::{child, state_key, state_root};
use crate::interp::{find_field_type, find_state_builtin, is_grouped, path_end, state_builtin};
use crate::tables::{find_first, find_last, first_place, name_set, place};
use crate::text::{concat2, concat3, same, text};
use crate::token::Span;

verus! {

/// A function of another module, and what its declaration promises.
#[derive(Debug)]
pub struct ExternFn {
    pub module: String,
    pub name: String,
    pub is_view: bool,
    pub is_pure: bool,
}

/// The model of an [`ExternFn`].
pub struct ExternView {
    pub module: Seq<char>,
    pub name: Seq<char>,
    pub is_view: bool,
    pub is_pure: bool,
}

impl View for ExternFn {
    type V = ExternView;

    open spec fn view(&self) -> ExternView {
        ExternView {
            module: self.module@,
            name: self.name@,
            is_view: self.is_view,
            is_pure: self.is_pure,
        }
    }
}

pub open spec fn extern_views(s: Seq<ExternFn>) -> Seq<ExternView> {
    Seq::new(s.len(), |i: int| s[i]@)
}

/// What the compilation of a function looks things up in.
pub struct Unit<'a> {
    pub module: &'a Module,
    pub module_name: &'a str,
    /// Interfaces that other modules declare.
    pub ifaces: &'a Vec<String>,
    pub externs: &'a Vec<ExternFn>,
    /// For each loop over an array, in the order in which they are compiled: the
    /// maps whose cells it will read by the elements.
    pub plan: &'a Vec<Vec<String>>,
    pub func: &'a FnDef,
}

/// The model of a [`Unit`].
pub struct UnitView {
    pub module: Module,
    pub module_name: Seq<char>,
    pub ifaces: Set<Seq<char>>,
    pub externs: Seq<ExternView>,
    pub plan: Seq<Vec<String>>,
    pub func: FnDef,
}

impl<'a> View for Unit<'a> {
    type V = UnitView;

    open spec fn view(&self) -> UnitView {
        UnitView {
            module: *self.module,
            module_name: self.module_name@,
            ifaces: name_set(self.ifaces@),
            externs: extern_views(self.externs@),
            plan: self.plan@,
            func: *self.func,
        }
    }
}

/// The number and the fields of a struct or a capability; capabilities are
/// numbered after the structs.
pub open spec fn struct_at(m: Module, name: Seq<char>) -> Option<(int, Seq<StructField>)> {
    match place(m.caps@, name) {
        Some(k) => Some((m.structs@.len() + k, m.caps@[k].fields@)),
        None => match place(m.structs@, name) {
            Some(k) => Some((k, m.structs@[k].fields@)),
            None => None,
        },
    }
}

fn find_struct<'a>(m: &'a Module, name: &str) -> (r: Option<(u16, &'a Vec<StructField>)>)
    ensures
        match struct_at(*m, name@) {
            Some((k, s)) => match r {
                Some(p) => p.0 == k as u16 && p.1@ == s,
                None => false,
            },
            None => r is None,
        },
{
    match find_last(&m.caps, name) {
        Some(k) => {
            let n: u128 = m.structs.len() as u128 + k as u128;
            Some((n as u16, &m.caps[k].fields))
        },
        None => match find_last(&m.structs, name) {
            Some(k) => Some((k as u16, &m.structs[k].fields)),
            None => None,
        },
    }
}

/// The state and the fields that an expression names, if it is a path into a state
/// that no local hides.
pub open spec fn path_names(cx: UnitView, scopes: Seq<ScopeRegs>, e: Expr, rest: Seq<Seq<char>>) -> Option<
    (int, Seq<Seq<char>>),
>
    decreases e,
{
    match e.kind {
        ExprKind::Field { target, name } => path_names(cx, scopes, *target, seq![name@] + rest),
        ExprKind::Ident(name) => if local_reg(scopes, name@) is Some {
            None
        } else {
            match place(cx.module.states@, name@) {
                Some(k) => Some((k, rest)),
                None => None,
            }
        },
        _ => None,
    }
}

/// The key under which a state of the module is stored.
pub open spec fn root_of(cx: UnitView, k: int) -> u128 {
    state_key(encode_utf8(cx.module_name), encode_utf8(cx.module.states@[k].name@))
}

/// The part of a state that an expression names, if it names one.
pub open spec fn path_of(cx: UnitView, scopes: Seq<ScopeRegs>, e: Expr) -> Option<PathView> {
    match path_names(cx, scopes, e, seq![]) {
        None => None,
        Some((k, path)) => match path_end(cx.module.states@[k].ty, root_of(cx, k), path, 0) {
            None => None,
            Some((key, ty)) => Some(
                PathView { state_idx: k as u16, path, key, ty: type_view(ty), is_blob: false },
            ),
        },
    }
}

fn collect_names(cx: &Unit, b: &Builder, e: &Expr, rest: Vec<String>) -> (r: Option<(usize, Vec<String>)>)
    requires
        sound(b@),
    ensures
        match path_names(cx@, b@.scopes, *e, names_of(rest@)) {
            Some((k, path)) => match r {
                Some(p) => p.0 == k && names_of(p.1@) == path && p.0 < cx.module.states@.len(),
                None => false,
            },
            None => r is None,
        },
    decreases e,
{
    match &e.kind {
        ExprKind::Field { target, name } => {
            let mut path: Vec<String> = Vec::new();
            path.push(name.clone());
            let ghost r0 = names_of(rest@);
            let mut tail = rest;
            path.append(&mut tail);
            assert(names_of(path@) =~= seq![name@] + r0);
            collect_names(cx, b, target, path)
        },
        ExprKind::Ident(name) => {
            if b.lookup_local(name.as_str()).is_some() {
                return None;
            }
            match find_last(&cx.module.states, name.as_str()) {
                Some(k) => Some((k, rest)),
                None => None,
            }
        },
        _ => None,
    }
}

fn find_path<'a>(cx: &Unit<'a>, b: &Builder, e: &Expr) -> (r: Option<(u16, Vec<String>, u128, &'a Type)>)
    requires
        sound(b@),
    ensures
        match path_of(cx@, b@.scopes, *e) {
            Some(p) => match r {
                Some(q) => p == (PathView {
                    state_idx: q.0,
                    path: names_of(q.1@),
                    key: q.2,
                    ty: type_view(*q.3),
                    is_blob: false,
                }),
                None => false,
            },
            None => r is None,
        },
{
    let none: Vec<String> = Vec::new();
    assert(names_of(none@) =~= seq![]);
    match collect_names(cx, b, e, none) {
        None => None,
        Some((k, path)) => {
            let ghost names = names_of(path@);
            let t: &'a Type = &cx.module.states[k].ty;
            let root: u128 = state_root(cx.module_name, cx.module.states[k].name.as_str());
            let mut key: u128 = root;
            let mut ty: &'a Type = t;
            let mut i: usize = 0;
            while i < path.len()
                invariant
                    i <= path@.len(),
                    names == names_of(path@),
                    path_names(cx@, b@.scopes, *e, seq![]) == Some((k as int, names)),
                    root == root_of(cx@, k as int),
                    cx.module.states@[k as int].ty == *t,
                    path_end(*t, root, names, 0) == path_end(*ty, key, names, i as nat),
                decreases path@.len() - i,
            {
                let step = path[i].as_str();
                if is_grouped(ty, step) {
                    return None;
                }
                ty = match find_field_type(ty, step) {
                    Some(f) => f,
                    None => return None,
                };
                key = child(key, step.as_bytes());
                i = i + 1;
            }
            Some((k as u16, path, key, ty))
        },
    }
}

/// The kinds of states that can be indexed: none, a map, a persistent map, an
/// ordered map, a vector.
pub open spec fn collection_kind(t: Type) -> int {
    match t {
        Type::MapOf { key, value } => 1,
        Type::PMap { key, value } => 2,
        Type::PBTree { key, value } => 3,
        Type::PVec { elem } => 4,
        _ => 0,
    }
}

fn find_kind(t: &Type) -> (r: u8)
    ensures
        r == collection_kind(*t),
{
    match t {
        Type::MapOf { key: _, value: _ } => 1,
        Type::PMap { key: _, value: _ } => 2,
        Type::PBTree { key: _, value: _ } => 3,
        Type::PVec { elem: _ } => 4,
        _ => 0,
    }
}

/// The state that an indexed expression reads, and its kind.
pub open spec fn indexed_state(cx: UnitView, target: Expr) -> Option<(int, int)> {
    match target.kind {
        ExprKind::Ident(name) => match place(cx.module.states@, name@) {
            Some(k) => if collection_kind(cx.module.states@[k].ty) != 0 {
                Some((k, collection_kind(cx.module.states@[k].ty)))
            } else {
                None
            },
            None => None,
        },
        _ => None,
    }
}

fn find_indexed_state(cx: &Unit, target: &Expr) -> (r: Option<(usize, u8)>)
    ensures
        match indexed_state(cx@, *target) {
            Some((k, kind)) => match r {
                Some(p) => p.0 == k && p.1 == kind,
                None => false,
            },
            None => r is None,
        },
{
    match &target.kind {
        ExprKind::Ident(name) => match find_last(&cx.module.states, name.as_str()) {
            Some(k) => {
                let kind: u8 = find_kind(&cx.module.states[k].ty);
                if kind != 0 {
                    Some((k, kind))
                } else {
                    None
                }
            },
            None => None,
        },
        _ => None,
    }
}

/// The collection state that a loop goes over without making an array of it, and
/// its kind.
pub open spec fn streamed(cx: UnitView, iter: Expr) -> Option<(int, int)> {
    match indexed_state(cx, iter) {
        Some((k, kind)) => if kind == 1 {
            None
        } else {
            Some((k, kind))
        },
        None => None,
    }
}

fn find_streamed(cx: &Unit, iter: &Expr) -> (r: Option<(usize, u8)>)
    ensures
        match streamed(cx@, *iter) {
            Some((k, kind)) => match r {
                Some(p) => p.0 == k && p.1 == kind,
                None => false,
            },
            None => r is None,
        },
{
    match find_indexed_state(cx, iter) {
        Some((k, kind)) => if kind == 1 {
            None
        } else {
            Some((k, kind))
        },
        None => None,
    }
}

pub open spec fn get_instr(kind: int, dst: u16, state_idx: u16, key_reg: u16) -> Instr {
    if kind == 2 {
        Instr::PMapGet { dst, state_idx, key_reg }
    } else if kind == 3 {
        Instr::PBTreeGet { dst, state_idx, key_reg }
    } else if kind == 4 {
        Instr::PVecGet { dst, state_idx, idx_reg: key_reg }
    } else {
        Instr::MapGet { dst, state_idx, key_reg }
    }
}

fn make_get(kind: u8, dst: u16, state_idx: u16, key_reg: u16) -> (r: Instr)
    ensures
        r == get_instr(kind as int, dst, state_idx, key_reg),
{
    if kind == 2 {
        Instr::PMapGet { dst, state_idx, key_reg }
    } else if kind == 3 {
        Instr::PBTreeGet { dst, state_idx, key_reg }
    } else if kind == 4 {
        Instr::PVecGet { dst, state_idx, idx_reg: key_reg }
    } else {
        Instr::MapGet { dst, state_idx, key_reg }
    }
}

pub open spec fn put_instr(kind: int, state_idx: u16, key_reg: u16, src: u16) -> Instr {
    if kind == 2 {
        Instr::PMapPut { state_idx, key_reg, src }
    } else if kind == 3 {
        Instr::PBTreePut { state_idx, key_reg, src }
    } else if kind == 4 {
        Instr::PVecSet { state_idx, idx_reg: key_reg, src }
    } else {
        Instr::MapPut { state_idx, key_reg, src }
    }
}

fn make_put(kind: u8, state_idx: u16, key_reg: u16, src: u16) -> (r: Instr)
    ensures
        r == put_instr(kind as int, state_idx, key_reg, src),
{
    if kind == 2 {
        Instr::PMapPut { state_idx, key_reg, src }
    } else if kind == 3 {
        Instr::PBTreePut { state_idx, key_reg, src }
    } else if kind == 4 {
        Instr::PVecSet { state_idx, idx_reg: key_reg, src }
    } else {
        Instr::MapPut { state_idx, key_reg, src }
    }
}

pub open spec fn remove_instr(kind: int, state_idx: u16, key_reg: u16) -> Instr {
    if kind == 3 {
        Instr::PBTreeDelete { state_idx, key_reg }
    } else {
        Instr::PMapDelete { state_idx, key_reg }
    }
}

fn make_remove(kind: u8, state_idx: u16, key_reg: u16) -> (r: Instr)
    ensures
        r == remove_instr(kind as int, state_idx, key_reg),
{
    if kind == 3 {
        Instr::PBTreeDelete { state_idx, key_reg }
    } else {
        Instr::PMapDelete { state_idx, key_reg }
    }
}

pub open spec fn walk_init(ordered: bool, dst: u16, state_idx: u16) -> Instr {
    if ordered {
        Instr::PBTreeWalkInit { dst, state_idx }
    } else {
        Instr::PMapWalkInit { dst, state_idx }
    }
}

fn make_walk_init(ordered: bool, dst: u16, state_idx: u16) -> (r: Instr)
    ensures
        r == walk_init(ordered, dst, state_idx),
{
    if ordered {
        Instr::PBTreeWalkInit { dst, state_idx }
    } else {
        Instr::PMapWalkInit { dst, state_idx }
    }
}

pub open spec fn walk_next(ordered: bool, cursor_reg: u16, value_reg: u16) -> Instr {
    if ordered {
        Instr::PBTreeWalkNext { cursor_reg, value_reg, end_offset: 0 }
    } else {
        Instr::PMapWalkNext { cursor_reg, value_reg, end_offset: 0 }
    }
}

fn make_walk_next(ordered: bool, cursor_reg: u16, value_reg: u16) -> (r: Instr)
    ensures
        r == walk_next(ordered, cursor_reg, value_reg),
{
    if ordered {
        Instr::PBTreeWalkNext { cursor_reg, value_reg, end_offset: 0 }
    } else {
        Instr::PMapWalkNext { cursor_reg, value_reg, end_offset: 0 }
    }
}

/// The builtins of one argument that have an instruction of their own.
pub open spec fn unary_builtin(name: Seq<char>) -> int {
    if name == "resource"@ {
        1
    } else if name == "unwrap"@ {
        2
    } else if name == "address"@ {
        3
    } else if name == "len"@ {
        4
    } else {
        0
    }
}

fn find_unary_builtin(name: &str) -> (r: u8)
    ensures
        r == unary_builtin(name@),
{
    if same(name, "resource") {
        1
    } else if same(name, "unwrap") {
        2
    } else if same(name, "address") {
        3
    } else if same(name, "len") {
        4
    } else {
        0
    }
}

pub open spec fn unary_instr(kind: int, dst: u16, src: u16) -> Instr {
    if kind == 1 {
        Instr::BuiltinResource { dst, src }
    } else if kind == 2 {
        Instr::BuiltinUnwrap { dst, src }
    } else if kind == 3 {
        Instr::BuiltinAddress { dst, src }
    } else {
        Instr::BuiltinLen { dst, src }
    }
}

fn make_unary(kind: u8, dst: u16, src: u16) -> (r: Instr)
    ensures
        r == unary_instr(kind as int, dst, src),
{
    if kind == 1 {
        Instr::BuiltinResource { dst, src }
    } else if kind == 2 {
        Instr::BuiltinUnwrap { dst, src }
    } else if kind == 3 {
        Instr::BuiltinAddress { dst, src }
    } else {
        Instr::BuiltinLen { dst, src }
    }
}

/// What the first argument of a collection builtin must name.
pub open spec fn wanted_state(name: Seq<char>) -> Seq<char> {
    if name == "pvec_push"@ || name == "pvec_len"@ {
        "pvec state"@
    } else if name == "pbtree_contains"@ || name == "pbtree_range"@ {
        "pbtree state"@
    } else if name == "pmap_contains"@ {
        "pmap state"@
    } else {
        "state slot"@
    }
}

fn find_wanted_state(name: &str) -> (r: &'static str)
    ensures
        r@ == wanted_state(name@),
{
    if same(name, "pvec_push") || same(name, "pvec_len") {
        "pvec state"
    } else if same(name, "pbtree_contains") || same(name, "pbtree_range") {
        "pbtree state"
    } else if same(name, "pmap_contains") {
        "pmap state"
    } else {
        "state slot"
    }
}

/// The state that a collection builtin is called on.
pub open spec fn named_state(cx: UnitView, name: Seq<char>, args: Seq<Expr>, span: Span) -> Result<int, ErrorView> {
    if args.len() == 0 || !(args[0].kind is Ident) {
        Err(type_error(name + "() arg 0 must name a "@ + wanted_state(name), span))
    } else {
        let state = args[0].kind->Ident_0@;
        match place(cx.module.states@, state) {
            None => Err(type_error("'"@ + state + "' is not a state"@, span)),
            Some(k) => Ok(k),
        }
    }
}

fn find_named_state(cx: &Unit, name: &str, args: &Vec<Expr>, span: Span) -> (r: Result<usize, Error>)
    ensures
        match named_state(cx@, name@, args@, span) {
            Ok(k) => match r {
                Ok(x) => x == k,
                Err(_) => false,
            },
            Err(x) => match r {
                Ok(_) => false,
                Err(e) => e@ == x,
            },
        },
{
    if args.len() > 0 {
        match &args[0].kind {
            ExprKind::Ident(state) => {
                return match find_last(&cx.module.states, state.as_str()) {
                    None => Err(
                        type_err(concat3("'", state.as_str(), "' is not a state"), span),
                    ),
                    Some(k) => Ok(k),
                };
            },
            _ => {},
        }
    }
    Err(type_err(concat3(name, "() arg 0 must name a ", find_wanted_state(name)), span))
}

pub open spec fn keyed_instr(name: Seq<char>, dst: u16, state_idx: u16, r: u16) -> Instr {
    if name == "pvec_push"@ {
        Instr::PVecPush { dst, state_idx, src: r }
    } else if name == "pbtree_contains"@ {
        Instr::PBTreeContains { dst, state_idx, key_reg: r }
    } else {
        Instr::PMapContains { dst, state_idx, key_reg: r }
    }
}

fn make_keyed(name: &str, dst: u16, state_idx: u16, r: u16) -> (i: Instr)
    ensures
        i == keyed_instr(name@, dst, state_idx, r),
{
    if same(name, "pvec_push") {
        Instr::PVecPush { dst, state_idx, src: r }
    } else if same(name, "pbtree_contains") {
        Instr::PBTreeContains { dst, state_idx, key_reg: r }
    } else {
        Instr::PMapContains { dst, state_idx, key_reg: r }
    }
}

pub open spec fn whole_instr(name: Seq<char>, dst: u16, state_idx: u16) -> Instr {
    if name == "pmap_entries"@ {
        Instr::PMapEntries { dst, state_idx }
    } else if name == "pmap_keys"@ {
        Instr::PMapKeys { dst, state_idx }
    } else if name == "pmap_values"@ {
        Instr::PMapValues { dst, state_idx }
    } else {
        Instr::PVecToArray { dst, state_idx }
    }
}

fn make_whole(name: &str, dst: u16, state_idx: u16) -> (r: Instr)
    ensures
        r == whole_instr(name@, dst, state_idx),
{
    if same(name, "pmap_entries") {
        Instr::PMapEntries { dst, state_idx }
    } else if same(name, "pmap_keys") {
        Instr::PMapKeys { dst, state_idx }
    } else if same(name, "pmap_values") {
        Instr::PMapValues { dst, state_idx }
    } else {
        Instr::PVecToArray { dst, state_idx }
    }
}

/// Whether a call by this name is a call of a builtin by its name; a function of the
/// module hides `sum`, `max` and `min`.
pub open spec fn lists_builtin(cx: UnitView, name: Seq<char>) -> bool {
    (name == "set_insert"@
        || name == "set_remove"@
        || name == "set_contains"@
        || name == "set_len"@
        || name == "dict_set"@
        || name == "dict_remove"@
        || name == "dict_get"@
        || name == "dict_has"@
        || name == "dict_len"@
        || name == "assert"@
        || name == "to_bytes"@
        || name == "bytes_len"@
        || name == "bytes_concat"@
        || name == "bytes_eq"@
        || name == "bytes_slice"@
        || name == "string_concat"@
        || name == "string_slice"@
        || name == "string_contains"@
        || name == "sum"@
        || name == "max"@
        || name == "min"@
        || name == "parse_json"@
        || name == "json_stringify"@
        || name == "json_get_field"@
        || name == "json_get_index"@
        || name == "json_to_string"@
        || name == "json_to_i64"@
        || name == "json_to_u64"@
        || name == "json_to_bool"@
        || name == "json_is_null"@)
        && !((name == "sum"@ || name == "max"@ || name == "min"@) && place(cx.module.functions@, name) is Some)
}

fn is_listed(cx: &Unit, name: &str) -> (r: bool)
    ensures
        r == lists_builtin(cx@, name@),
{
    let hidden = if same(name, "sum") || same(name, "max") || same(name, "min") {
        find_last(&cx.module.functions, name).is_some()
    } else {
        false
    };
    !hidden
        && (same(name, "set_insert") || same(name, "set_remove") || same(name, "set_contains") || same(name, "set_len") || same(name, "dict_set") || same(name, "dict_remove") || same(name, "dict_get") || same(name, "dict_has") || same(name, "dict_len") || same(name, "assert") || same(name, "to_bytes") || same(name, "bytes_len") || same(name, "bytes_concat") || same(name, "bytes_eq") || same(name, "bytes_slice") || same(name, "string_concat") || same(name, "string_slice") || same(name, "string_contains") || same(name, "sum") || same(name, "max") || same(name, "min") || same(name, "parse_json") || same(name, "json_stringify") || same(name, "json_get_field") || same(name, "json_get_index") || same(name, "json_to_string") || same(name, "json_to_i64") || same(name, "json_to_u64") || same(name, "json_to_bool") || same(name, "json_is_null"))
}

/// The number of a value of the transaction's context.
pub open spec fn context_kind(name: Seq<char>) -> Option<u8> {
    if name == "msg_sender"@ {
        Some(0)
    } else if name == "block_timestamp"@ {
        Some(1)
    } else if name == "block_number"@ {
        Some(2)
    } else {
        None
    }
}

fn find_context(name: &str) -> (r: Option<u8>)
    ensures
        r == context_kind(name@),
{
    if same(name, "msg_sender") {
        Some(0)
    } else if same(name, "block_timestamp") {
        Some(1)
    } else if same(name, "block_number") {
        Some(2)
    } else {
        None
    }
}

/// The number of the integer type that a conversion gives.
pub open spec fn conversion_target(name: Seq<char>) -> Option<u8> {
    if name == "i64"@ {
        Some(0)
    } else if name == "i32"@ {
        Some(1)
    } else if name == "u32"@ {
        Some(2)
    } else if name == "u64"@ {
        Some(3)
    } else if name == "u128"@ {
        Some(4)
    } else {
        None
    }
}

fn find_target(name: &str) -> (r: Option<u8>)
    ensures
        r == conversion_target(name@),
{
    if same(name, "i64") {
        Some(0)
    } else if same(name, "i32") {
        Some(1)
    } else if same(name, "u32") {
        Some(2)
    } else if same(name, "u64") {
        Some(3)
    } else if same(name, "u128") {
        Some(4)
    } else {
        None
    }
}

/// Whether a name is that of an interface, of this module or another.
pub open spec fn knows_interface(cx: UnitView, name: Seq<char>) -> bool {
    place(cx.module.interfaces@, name) is Some || cx.ifaces.contains(name)
}

fn has_interface(cx: &Unit, name: &str) -> (r: bool)
    ensures
        r == knows_interface(cx@, name@),
{
    find_last(&cx.module.interfaces, name).is_some() || find_last(cx.ifaces, name).is_some()
}

/// What the declaration of a function of another module promises: the last entry
/// for it, from the first `n`.
pub open spec fn extern_flags_in(s: Seq<ExternView>, module: Seq<char>, name: Seq<char>, n: nat) -> (bool, bool)
    decreases n,
{
    if n == 0 || n > s.len() {
        (false, false)
    } else if s[n - 1].module == module && s[n - 1].name == name {
        (s[n - 1].is_view, s[n - 1].is_pure)
    } else {
        extern_flags_in(s, module, name, (n - 1) as nat)
    }
}

pub open spec fn extern_flags(s: Seq<ExternView>, module: Seq<char>, name: Seq<char>) -> (bool, bool) {
    extern_flags_in(s, module, name, s.len())
}

fn find_extern(s: &Vec<ExternFn>, module: &str, name: &str) -> (r: (bool, bool))
    ensures
        r == extern_flags(extern_views(s@), module@, name@),
{
    let mut n: usize = s.len();
    while n > 0
        invariant
            n <= s@.len(),
            extern_flags(extern_views(s@), module@, name@) == extern_flags_in(
                extern_views(s@),
                module@,
                name@,
                n as nat,
            ),
        decreases n,
    {
        if same(s[n - 1].module.as_str(), module) && same(s[n - 1].name.as_str(), name) {
            return (s[n - 1].is_view, s[n - 1].is_pure);
        }
        n = n - 1;
    }
    (false, false)
}

/// The enum that the arms of a match name, from the `i`-th on.
pub open spec fn arms_enum(s: Seq<MatchArm>, i: nat) -> Option<Seq<char>>
    decreases s.len() - i,
{
    if i >= s.len() {
        None
    } else {
        match s[i as int].pattern {
            MatchPattern::EnumVariant { enum_name, variant, bindings } => Some(enum_name@),
            MatchPattern::Wildcard => arms_enum(s, i + 1),
        }
    }
}

/// The number of a variant in the enum that the arms name.
pub open spec fn variant_at(cx: UnitView, s: Seq<MatchArm>, variant: Seq<char>) -> Option<int> {
    match arms_enum(s, 0) {
        None => None,
        Some(name) => match place(cx.module.enums@, name) {
            None => None,
            Some(k) => first_place(cx.module.enums@[k].variants@, variant),
        },
    }
}

fn find_variant(cx: &Unit, s: &Vec<MatchArm>, variant: &str) -> (r: Option<usize>)
    ensures
        match variant_at(cx@, s@, variant@) {
            Some(v) => match r {
                Some(x) => x == v,
                None => false,
            },
            None => r is None,
        },
{
    let mut i: usize = 0;
    while i < s.len()
        invariant
            i <= s@.len(),
            arms_enum(s@, 0) == arms_enum(s@, i as nat),
        decreases s@.len() - i,
    {
        match &s[i].pattern {
            MatchPattern::EnumVariant { enum_name, variant: _, bindings: _ } => {
                return match find_last(&cx.module.enums, enum_name.as_str()) {
                    None => None,
                    Some(k) => find_first(&cx.module.enums[k].variants, variant),
                };
            },
            MatchPattern::Wildcard => {},
        }
        i = i + 1;
    }
    None
}

fn no_variant(enum_name: &str, variant: &str) -> (r: String)
    ensures
        r@ == "enum '"@ + enum_name@ + "' has no variant '"@ + variant@ + "'"@,
{
    let mut s = concat3("enum '", enum_name, "' has no variant '");
    s.append(variant);
    s.append("'");
    s
}

fn missing_field(field: &str, name: &str) -> (r: String)
    ensures
        r@ == "missing field '"@ + field@ + "' in struct '"@ + name@ + "'"@,
{
    let mut s = concat3("missing field '", field, "' in struct '");
    s.append(name);
    s.append("'");
    s
}

/// Whether an expression is a comprehension with these clauses.
pub open spec fn comp_has(e: Expr, clauses: Seq<CompClause>) -> bool {
    match e.kind {
        ExprKind::ListComp { mapper, clauses: c } => c@ == clauses,
        ExprKind::SetComp { mapper, clauses: c } => c@ == clauses,
        ExprKind::DictComp { key, value, clauses: c } => c@ == clauses,
        _ => false,
    }
}

/// The state with one instruction for each of the first `n` names that is a state.
pub open spec fn prefetched_from(cx: UnitView, b: BuilderView, names: Seq<String>, n: nat, arr_reg: u16) -> BuilderView
    decreases n,
{
    if n == 0 || n > names.len() {
        b
    } else {
        let c = prefetched_from(cx, b, names, (n - 1) as nat, arr_reg);
        match place(cx.module.states@, names[n - 1]@) {
            Some(k) => emitted(c, Instr::PrefetchMap { arr_reg, state_idx: k as u16 }),
            None => c,
        }
    }
}

/// The state after the reads that the plan gives for the next loop over an array.
pub open spec fn prefetched(cx: UnitView, b: BuilderView, arr_reg: u16) -> BuilderView {
    if b.seen < cx.plan.len() {
        let names = cx.plan[b.seen as int]@;
        prefetched_from(
            cx,
            BuilderView { seen: (b.seen + 1) as usize, ..b },
            names,
            names.len(),
            arr_reg,
        )
    } else {
        b
    }
}

fn prefetch(cx: &Unit, b: &mut Builder, arr_reg: u16)
    requires
        sound(old(b)@),
        arr_reg < old(b)@.max,
    ensures
        final(b)@ == prefetched(cx@, old(b)@, arr_reg),
        sound(final(b)@),
        grown(old(b)@, final(b)@),
        final(b)@.next == old(b)@.next,
{
    if b.seen < cx.plan.len() {
        let names = &cx.plan[b.seen];
        b.skip_plan();
        let ghost start = b@;
        let mut i: usize = 0;
        while i < names.len()
            invariant
                i <= names@.len(),
                b@ == prefetched_from(cx@, start, names@, i as nat, arr_reg),
                sound(b@),
                grown(start, b@),
                b@.next == start.next,
                arr_reg < start.max,
            decreases names@.len() - i,
        {
            match find_last(&cx.module.states, names[i].as_str()) {
                Some(k) => b.emit(Instr::PrefetchMap { arr_reg, state_idx: k as u16 }),
                None => {},
            }
            i = i + 1;
        }
    }
}

/// The code that binds the parts of an enum value to names, from the `i`-th on.
pub open spec fn payload_code(cx: UnitView, names: Seq<String>, i: nat, scrut_reg: u16, b: BuilderView) -> Built
    decreases names.len() - i,
{
    if i >= names.len() {
        Ok(b)
    } else {
        match allocated(b, 1, cx.func.name@, cx.func.span) {
            Err(x) => Err(x),
            Ok((r, b)) => payload_code(
                cx,
                names,
                i + 1,
                scrut_reg,
                bound(
                    emitted(b, Instr::EnumPayload { dst: r, src: scrut_reg, index: i as u16 }),
                    names[i as int]@,
                    r,
                ),
            ),
        }
    }
}

fn bind_payload(cx: &Unit, names: &Vec<String>, scrut_reg: u16, b: &mut Builder) -> (r: Result<(), Error>)
    requires
        sound(old(b)@),
        old(b)@.scopes.len() > 0,
        scrut_reg < old(b)@.max,
    ensures
        built(r, old(b)@, final(b)@, payload_code(cx@, names@, 0, scrut_reg, old(b)@)),
        r is Ok ==> final(b)@.next == old(b)@.next + names@.len(),
{
    let mut i: usize = 0;
    while i < names.len()
        invariant
            i <= names@.len(),
            sound(b@),
            grown(old(b)@, b@),
            old(b)@.scopes.len() > 0,
            scrut_reg < old(b)@.max,
            b@.next == old(b)@.next + i,
            payload_code(cx@, names@, 0, scrut_reg, old(b)@) == payload_code(
                cx@,
                names@,
                i as nat,
                scrut_reg,
                b@,
            ),
        decreases names@.len() - i,
    {
        let r: u16 = match b.take_regs(1, cx.func.name.as_str(), cx.func.span) {
            Ok(r) => r,
            Err(x) => return Err(x),
        };
        b.emit(Instr::EnumPayload { dst: r, src: scrut_reg, index: i as u16 });
        b.bind(names[i].as_str(), r);
        i = i + 1;
    }
    Ok(())
}

/// The state after the `n` registers from `first` on are given back, the last one
/// first.
pub open spec fn freed_down(b: BuilderView, first: u16, n: nat) -> BuilderView
    decreases n,
{
    if n == 0 {
        b
    } else {
        freed_down(freed(b, (first + n - 1) as u16), first, (n - 1) as nat)
    }
}

fn free_down(b: &mut Builder, first: u16, n: usize)
    requires
        sound(old(b)@),
        first + n <= old(b)@.next,
    ensures
        final(b)@ == freed_down(old(b)@, first, n as nat),
        sound(final(b)@),
        final(b)@ == restored(old(b)@, final(b)@.next),
        first <= final(b)@.next <= old(b)@.next,
{
    let mut i: usize = n;
    while i > 0
        invariant
            i <= n,
            sound(b@),
            first + n <= old(b)@.next,
            first + i <= b@.next <= old(b)@.next,
            b@ == restored(old(b)@, b@.next),
            freed_down(old(b)@, first, n as nat) == freed_down(b@, first, i as nat),
        decreases i,
    {
        i = i - 1;
        b.free(first + i as u16);
    }
}

/// The code that binds the parts of a tuple to names, from the `i`-th on.
pub open spec fn tuple_code(cx: UnitView, names: Seq<String>, i: nat, tuple_reg: u16, b: BuilderView) -> Built
    decreases names.len() - i,
{
    if i >= names.len() {
        Ok(b)
    } else {
        match allocated(b, 1, cx.func.name@, cx.func.span) {
            Err(x) => Err(x),
            Ok((r, b)) => tuple_code(
                cx,
                names,
                i + 1,
                tuple_reg,
                bound(
                    emitted(b, Instr::TupleGet { dst: r, src: tuple_reg, index: i as u16 }),
                    names[i as int]@,
                    r,
                ),
            ),
        }
    }
}

fn bind_tuple(cx: &Unit, names: &Vec<String>, tuple_reg: u16, b: &mut Builder) -> (r: Result<(), Error>)
    requires
        sound(old(b)@),
        old(b)@.scopes.len() > 0,
        tuple_reg < old(b)@.max,
    ensures
        built(r, old(b)@, final(b)@, tuple_code(cx@, names@, 0, tuple_reg, old(b)@)),
{
    let mut i: usize = 0;
    while i < names.len()
        invariant
            i <= names@.len(),
            sound(b@),
            grown(old(b)@, b@),
            old(b)@.scopes.len() > 0,
            tuple_reg < old(b)@.max,
            tuple_code(cx@, names@, 0, tuple_reg, old(b)@) == tuple_code(
                cx@,
                names@,
                i as nat,
                tuple_reg,
                b@,
            ),
        decreases names@.len() - i,
    {
        let r: u16 = match b.take_regs(1, cx.func.name.as_str(), cx.func.span) {
            Ok(r) => r,
            Err(x) => return Err(x),
        };
        b.emit(Instr::TupleGet { dst: r, src: tuple_reg, index: i as u16 });
        b.bind(names[i].as_str(), r);
        i = i + 1;
    }
    Ok(())
}

/// The code that follows a path of fields from the value in `cur`, from the `i`-th
/// field on, and the register of its end.
pub open spec fn chain_code(cx: UnitView, path: Seq<String>, i: nat, cur: u16, b: BuilderView) -> Result<
    (u16, BuilderView),
    ErrorView,
>
    decreases path.len() - i,
{
    if i >= path.len() {
        Ok((cur, b))
    } else {
        let name_idx = const_index(b, ConstView::Str(path[i as int]@));
        match allocated(with_const(b, ConstView::Str(path[i as int]@)), 1, cx.func.name@, cx.func.span) {
            Err(x) => Err(x),
            Ok((r, b)) => {
                let b = emitted(b, Instr::FieldGet { dst: r, src: cur, name_idx });
                let b = if i > 0 {
                    freed(b, cur)
                } else {
                    b
                };
                chain_code(cx, path, i + 1, r, b)
            },
        }
    }
}

fn compile_chain(cx: &Unit, path: &Vec<String>, start: u16, b: &mut Builder) -> (r: Result<u16, Error>)
    requires
        sound(old(b)@),
        start < old(b)@.max,
    ensures
        match chain_code(cx@, path@, 0, start, old(b)@) {
            Ok((x, w)) => r == Ok::<u16, Error>(x) && final(b)@ == w && sound(w) && grown(old(b)@, w) && x
                < w.max && (path@.len() > 0 ==> old(b)@.next <= x),
            Err(x) => match r {
                Ok(_) => false,
                Err(e) => e@ == x,
            },
        },
{
    let mut cur: u16 = start;
    let mut i: usize = 0;
    while i < path.len()
        invariant
            i <= path@.len(),
            sound(b@),
            grown(old(b)@, b@),
            cur < b@.max,
            i == 0 ==> cur == start,
            i > 0 ==> old(b)@.next <= cur < b@.next,
            chain_code(cx@, path@, 0, start, old(b)@) == chain_code(cx@, path@, i as nat, cur, b@),
        decreases path@.len() - i,
    {
        let name_idx: u16 = b.const_idx(Const::Str(path[i].clone()));
        let r: u16 = match b.take_regs(1, cx.func.name.as_str(), cx.func.span) {
            Ok(r) => r,
            Err(x) => return Err(x),
        };
        b.emit(Instr::FieldGet { dst: r, src: cur, name_idx });
        if i > 0 {
            b.free(cur);
        }
        cur = r;
        i = i + 1;
    }
    Ok(cur)
}

/// The code that leaves the bytes of one component of a packed key in `part`.
pub open spec fn component_code(cx: UnitView, idx: IndexDecl, i: int, value_reg: u16, b: BuilderView) -> Result<
    (u16, BuilderView),
    ErrorView,
> {
    match chain_code(cx, idx.fields@[i].path@, 0, value_reg, b) {
        Err(x) => Err(x),
        Ok((cur, b)) => match allocated(b, 1, cx.func.name@, cx.func.span) {
            Err(x) => Err(x),
            Ok((part, b)) => {
                let name_idx = const_index(b, ConstView::Str("to_be_bytes"@));
                let b = emitted(
                    with_const(b, ConstView::Str("to_be_bytes"@)),
                    Instr::BuiltinCall { dst: part, name_idx, args_start: cur, n_args: 1 },
                );
                match idx.fields@[i].direction {
                    SortDirection::Asc => Ok((part, b)),
                    SortDirection::Desc => {
                        let name_idx = const_index(b, ConstView::Str("bit_not_bytes"@));
                        let b = emitted(
                            with_const(b, ConstView::Str("bit_not_bytes"@)),
                            Instr::BuiltinCall { dst: part, name_idx, args_start: part, n_args: 1 },
                        );
                        Ok((part, b))
                    },
                }
            },
        },
    }
}

fn compile_component(cx: &Unit, idx: &IndexDecl, i: usize, value_reg: u16, b: &mut Builder) -> (r: Result<u16, Error>)
    requires
        sound(old(b)@),
        value_reg < old(b)@.max,
        i < idx.fields@.len(),
    ensures
        match component_code(cx@, *idx, i as int, value_reg, old(b)@) {
            Ok((x, w)) => r == Ok::<u16, Error>(x) && final(b)@ == w && sound(w) && grown(old(b)@, w) && x
                < w.max,
            Err(x) => match r {
                Ok(_) => false,
                Err(e) => e@ == x,
            },
        },
{
    let cur: u16 = match compile_chain(cx, &idx.fields[i].path, value_reg, b) {
        Ok(r) => r,
        Err(x) => return Err(x),
    };
    let part: u16 = match b.take_regs(1, cx.func.name.as_str(), cx.func.span) {
        Ok(r) => r,
        Err(x) => return Err(x),
    };
    let name_idx: u16 = b.const_idx(Const::Str(text("to_be_bytes")));
    b.emit(Instr::BuiltinCall { dst: part, name_idx, args_start: cur, n_args: 1 });
    match idx.fields[i].direction {
        SortDirection::Asc => {},
        SortDirection::Desc => {
            let name_idx: u16 = b.const_idx(Const::Str(text("bit_not_bytes")));
            b.emit(Instr::BuiltinCall { dst: part, name_idx, args_start: part, n_args: 1 });
        },
    }
    Ok(part)
}

/// The code that appends the components of a packed key from the `i`-th on to the
/// bytes in `acc`.
pub open spec fn packed_code(cx: UnitView, idx: IndexDecl, i: nat, acc: u16, value_reg: u16, b: BuilderView) -> Built
    decreases idx.fields@.len() - i,
{
    if i >= idx.fields@.len() {
        Ok(b)
    } else {
        match component_code(cx, idx, i as int, value_reg, b) {
            Err(x) => Err(x),
            Ok((part, b)) => match allocated(b, 2, cx.func.name@, cx.func.span) {
                Err(x) => Err(x),
                Ok((first, b)) => {
                    let b = emitted(b, Instr::Move { dst: first, src: acc });
                    let b = emitted(b, Instr::Move { dst: (first + 1) as u16, src: part });
                    let name_idx = const_index(b, ConstView::Str("bytes_concat"@));
                    let b = emitted(
                        with_const(b, ConstView::Str("bytes_concat"@)),
                        Instr::BuiltinCall { dst: acc, name_idx, args_start: first, n_args: 2 },
                    );
                    packed_code(cx, idx, i + 1, acc, value_reg, dropped(b, 2))
                },
            },
        }
    }
}

fn compile_packed(cx: &Unit, idx: &IndexDecl, acc: u16, value_reg: u16, b: &mut Builder) -> (r: Result<(), Error>)
    requires
        sound(old(b)@),
        value_reg < old(b)@.max,
        acc < old(b)@.max,
        idx.fields@.len() > 0,
    ensures
        built(r, old(b)@, final(b)@, packed_code(cx@, *idx, 1, acc, value_reg, old(b)@)),
{
    let mut i: usize = 1;
    while i < idx.fields.len()
        invariant
            1 <= i <= idx.fields@.len(),
            sound(b@),
            grown(old(b)@, b@),
            value_reg < old(b)@.max,
            acc < old(b)@.max,
            packed_code(cx@, *idx, 1, acc, value_reg, old(b)@) == packed_code(
                cx@,
                *idx,
                i as nat,
                acc,
                value_reg,
                b@,
            ),
        decreases idx.fields@.len() - i,
    {
        let part: u16 = match compile_component(cx, idx, i, value_reg, b) {
            Ok(r) => r,
            Err(x) => return Err(x),
        };
        let first: u16 = match b.take_regs(2, cx.func.name.as_str(), cx.func.span) {
            Ok(r) => r,
            Err(x) => return Err(x),
        };
        b.emit(Instr::Move { dst: first, src: acc });
        b.emit(Instr::Move { dst: first + 1, src: part });
        let name_idx: u16 = b.const_idx(Const::Str(text("bytes_concat")));
        b.emit(Instr::BuiltinCall { dst: acc, name_idx, args_start: first, n_args: 2 });
        b.drop_regs(2);
        i = i + 1;
    }
    Ok(())
}

/// Whether the key of an index is its one component as it is.
pub open spec fn plain_key(idx: IndexDecl) -> bool {
    idx.fields@.len() == 1 && idx.fields@[0].direction is Asc
}

/// The code that projects the key of an index from the value in `value_reg`, and
/// the register of the key.
pub open spec fn project_code(cx: UnitView, idx: IndexDecl, value_reg: u16, b: BuilderView) -> Result<
    (u16, BuilderView),
    ErrorView,
> {
    if plain_key(idx) {
        chain_code(cx, idx.fields@[0].path@, 0, value_reg, b)
    } else if idx.fields@.len() == 0 {
        Err(type_error("index '"@ + idx.name@ + "' has no fields"@, idx.span))
    } else {
        match component_code(cx, idx, 0, value_reg, b) {
            Err(x) => Err(x),
            Ok((acc, b)) => match packed_code(cx, idx, 1, acc, value_reg, b) {
                Err(x) => Err(x),
                Ok(b) => Ok((acc, b)),
            },
        }
    }
}

fn compile_projection(cx: &Unit, idx: &IndexDecl, value_reg: u16, b: &mut Builder) -> (r: Result<u16, Error>)
    requires
        sound(old(b)@),
        value_reg < old(b)@.max,
    ensures
        match project_code(cx@, *idx, value_reg, old(b)@) {
            Ok((x, w)) => r == Ok::<u16, Error>(x) && final(b)@ == w && sound(w) && grown(old(b)@, w) && x
                < w.max,
            Err(x) => match r {
                Ok(_) => false,
                Err(e) => e@ == x,
            },
        },
{
    if idx.fields.len() == 1 && idx.fields[0].direction == SortDirection::Asc {
        return compile_chain(cx, &idx.fields[0].path, value_reg, b);
    }
    if idx.fields.len() == 0 {
        return Err(type_err(concat3("index '", idx.name.as_str(), "' has no fields"), idx.span));
    }
    let acc: u16 = match compile_component(cx, idx, 0, value_reg, b) {
        Ok(r) => r,
        Err(x) => return Err(x),
    };
    match compile_packed(cx, idx, acc, value_reg, b) {
        Ok(_) => Ok(acc),
        Err(x) => Err(x),
    }
}

/// The instruction that brings an index up to date.
pub open spec fn index_instr(
    kind: IndexKind,
    ordered: bool,
    removing: bool,
    state_idx: u16,
    key_reg: u16,
    elem: u16,
) -> Instr {
    match (kind, ordered, removing) {
        (IndexKind::Unique, false, false) => Instr::PMapPutUnique { state_idx, key_reg, src: elem },
        (IndexKind::Unique, true, false) => Instr::PBTreePutUnique { state_idx, key_reg, src: elem },
        (IndexKind::Multi, false, false) => Instr::PMapAppendUnique { state_idx, key_reg, elem_reg: elem },
        (IndexKind::Multi, true, false) => Instr::PBTreeAppendUnique { state_idx, key_reg, elem_reg: elem },
        (IndexKind::Unique, false, true) => Instr::PMapRemoveUnique {
            state_idx,
            key_reg,
            expected_reg: elem,
        },
        (IndexKind::Unique, true, true) => Instr::PBTreeRemoveUnique {
            state_idx,
            key_reg,
            expected_reg: elem,
        },
        (IndexKind::Multi, false, true) => Instr::PMapRemoveFromList { state_idx, key_reg, elem_reg: elem },
        (IndexKind::Multi, true, true) => Instr::PBTreeRemoveFromList { state_idx, key_reg, elem_reg: elem },
    }
}

fn make_index_instr(
    kind: IndexKind,
    ordered: bool,
    removing: bool,
    state_idx: u16,
    key_reg: u16,
    elem: u16,
) -> (r: Instr)
    ensures
        r == index_instr(kind, ordered, removing, state_idx, key_reg, elem),
{
    match (kind, ordered, removing) {
        (IndexKind::Unique, false, false) => Instr::PMapPutUnique { state_idx, key_reg, src: elem },
        (IndexKind::Unique, true, false) => Instr::PBTreePutUnique { state_idx, key_reg, src: elem },
        (IndexKind::Multi, false, false) => Instr::PMapAppendUnique { state_idx, key_reg, elem_reg: elem },
        (IndexKind::Multi, true, false) => Instr::PBTreeAppendUnique { state_idx, key_reg, elem_reg: elem },
        (IndexKind::Unique, false, true) => Instr::PMapRemoveUnique {
            state_idx,
            key_reg,
            expected_reg: elem,
        },
        (IndexKind::Unique, true, true) => Instr::PBTreeRemoveUnique {
            state_idx,
            key_reg,
            expected_reg: elem,
        },
        (IndexKind::Multi, false, true) => Instr::PMapRemoveFromList { state_idx, key_reg, elem_reg: elem },
        (IndexKind::Multi, true, true) => Instr::PBTreeRemoveFromList { state_idx, key_reg, elem_reg: elem },
    }
}

/// The code for one index over a state whose entry under `key_reg` is or was
/// `value_reg`.
pub open spec fn index_code(
    cx: UnitView,
    idx: IndexDecl,
    value_reg: u16,
    key_reg: u16,
    removing: bool,
    b: BuilderView,
) -> Built {
    match project_code(cx, idx, value_reg, b) {
        Err(x) => Err(x),
        Ok((cur, b)) => match place(cx.module.states@, idx.name@) {
            None => Err(type_error("index '"@ + idx.name@ + "' has no state"@, idx.span)),
            Some(k) => {
                let ordered = collection_kind(cx.module.states@[k].ty) == 3;
                let b = emitted(b, index_instr(idx.kind, ordered, removing, k as u16, cur, key_reg));
                Ok(
                    if plain_key(idx) && idx.fields@[0].path@.len() == 0 {
                        b
                    } else {
                        freed(b, cur)
                    },
                )
            },
        },
    }
}

fn compile_one_index(
    cx: &Unit,
    idx: &IndexDecl,
    value_reg: u16,
    key_reg: u16,
    removing: bool,
    b: &mut Builder,
) -> (r: Result<
    (),
    Error,
>)
    requires
        sound(old(b)@),
        value_reg < old(b)@.max,
        key_reg < old(b)@.max,
    ensures
        built(r, old(b)@, final(b)@, index_code(cx@, *idx, value_reg, key_reg, removing, old(b)@)),
{
    let cur: u16 = match compile_projection(cx, idx, value_reg, b) {
        Ok(r) => r,
        Err(x) => return Err(x),
    };
    let k: usize = match find_last(&cx.module.states, idx.name.as_str()) {
        Some(k) => k,
        None => return Err(
            type_err(concat3("index '", idx.name.as_str(), "' has no state"), idx.span),
        ),
    };
    let ordered = find_kind(&cx.module.states[k].ty) == 3;
    b.emit(make_index_instr(idx.kind, ordered, removing, k as u16, cur, key_reg));
    let bare = idx.fields.len() == 1 && idx.fields[0].direction == SortDirection::Asc
        && idx.fields[0].path.len() == 0;
    if !bare {
        proof {
            lemma_key_is_fresh(cx@, *idx, value_reg, old(b)@);
        }
        b.free(cur);
    }
    Ok(())
}

proof fn lemma_chain_is_fresh(cx: UnitView, path: Seq<String>, i: nat, cur: u16, b: BuilderView, low: u16)
    requires
        low <= b.next,
        i > 0 ==> low <= cur,
    ensures
        match chain_code(cx, path, i, cur, b) {
            Ok((x, w)) => low <= w.next && (path.len() > 0 && (i > 0 || i < path.len()) ==> low <= x),
            Err(_) => true,
        },
    decreases path.len() - i,
{
    if i < path.len() {
        let c = with_const(b, ConstView::Str(path[i as int]@));
        match allocated(c, 1, cx.func.name@, cx.func.span) {
            Ok((r, b2)) => {
                let name_idx = const_index(b, ConstView::Str(path[i as int]@));
                let b3 = emitted(b2, Instr::FieldGet { dst: r, src: cur, name_idx });
                let b4 = if i > 0 {
                    freed(b3, cur)
                } else {
                    b3
                };
                lemma_chain_is_fresh(cx, path, i + 1, r, b4, low);
            },
            Err(_) => {},
        }
    }
}

/// The register of a projected key is none that was in use before.
proof fn lemma_key_is_fresh(cx: UnitView, idx: IndexDecl, value_reg: u16, b: BuilderView)
    requires
        !(plain_key(idx) && idx.fields@[0].path@.len() == 0),
    ensures
        match project_code(cx, idx, value_reg, b) {
            Ok((x, w)) => b.next <= x,
            Err(_) => true,
        },
{
    if plain_key(idx) {
        lemma_chain_is_fresh(cx, idx.fields@[0].path@, 0, value_reg, b, b.next);
    } else if idx.fields@.len() > 0 {
        lemma_chain_is_fresh(cx, idx.fields@[0].path@, 0, value_reg, b, b.next);
    }
}

/// The code for the indexes over a state, from the `i`-th index on.
pub open spec fn indexes_code(
    cx: UnitView,
    i: nat,
    state: Seq<char>,
    value_reg: u16,
    key_reg: u16,
    removing: bool,
    b: BuilderView,
) -> Built
    decreases cx.module.indexes@.len() - i,
{
    if i >= cx.module.indexes@.len() {
        Ok(b)
    } else if cx.module.indexes@[i as int].on_state@ != state {
        indexes_code(cx, i + 1, state, value_reg, key_reg, removing, b)
    } else {
        match index_code(cx, cx.module.indexes@[i as int], value_reg, key_reg, removing, b) {
            Err(x) => Err(x),
            Ok(b) => indexes_code(cx, i + 1, state, value_reg, key_reg, removing, b),
        }
    }
}

fn compile_indexes(cx: &Unit, state: &str, value_reg: u16, key_reg: u16, removing: bool, b: &mut Builder) -> (r: Result<
    (),
    Error,
>)
    requires
        sound(old(b)@),
        value_reg < old(b)@.max,
        key_reg < old(b)@.max,
    ensures
        built(
            r,
            old(b)@,
            final(b)@,
            indexes_code(cx@, 0, state@, value_reg, key_reg, removing, old(b)@),
        ),
{
    let mut i: usize = 0;
    while i < cx.module.indexes.len()
        invariant
            i <= cx.module.indexes@.len(),
            sound(b@),
            grown(old(b)@, b@),
            value_reg < old(b)@.max,
            key_reg < old(b)@.max,
            indexes_code(cx@, 0, state@, value_reg, key_reg, removing, old(b)@) == indexes_code(
                cx@,
                i as nat,
                state@,
                value_reg,
                key_reg,
                removing,
                b@,
            ),
        decreases cx.module.indexes@.len() - i,
    {
        let idx = &cx.module.indexes[i];
        if same(idx.on_state.as_str(), state) {
            match compile_one_index(cx, idx, value_reg, key_reg, removing, b) {
                Ok(_) => {},
                Err(x) => return Err(x),
            }
        }
        i = i + 1;
    }
    Ok(())
}

/// The removal of an entry of a keyed state: the indexes over the state first, while
/// the entry can still be read.
pub open spec fn removal_code(cx: UnitView, state: Seq<char>, kind: int, k: u16, key_reg: u16, b: BuilderView) -> Built {
    match allocated(b, 1, cx.func.name@, cx.func.span) {
        Err(x) => Err(x),
        Ok((prior_reg, b)) => match indexes_code(
            cx,
            0,
            state,
            prior_reg,
            key_reg,
            true,
            emitted(b, get_instr(kind, prior_reg, k, key_reg)),
        ) {
            Err(x) => Err(x),
            Ok(b) => Ok(freed(emitted(b, remove_instr(kind, k, key_reg)), prior_reg)),
        },
    }
}

fn compile_removal(cx: &Unit, state: &str, kind: u8, k: u16, key_reg: u16, b: &mut Builder) -> (r: Result<(), Error>)
    requires
        sound(old(b)@),
        key_reg < old(b)@.max,
    ensures
        built(r, old(b)@, final(b)@, removal_code(cx@, state@, kind as int, k, key_reg, old(b)@)),
{
    let prior_reg: u16 = match b.take_regs(1, cx.func.name.as_str(), cx.func.span) {
        Ok(r) => r,
        Err(x) => return Err(x),
    };
    b.emit(make_get(kind, prior_reg, k, key_reg));
    match compile_indexes(cx, state, prior_reg, key_reg, true, b) {
        Ok(_) => {},
        Err(x) => return Err(x),
    }
    b.emit(make_remove(kind, k, key_reg));
    b.free(prior_reg);
    Ok(())
}

/// The insertion of a register into the set in `dst`.
pub open spec fn insert_code(cx: UnitView, elem_reg: u16, dst: u16, b: BuilderView) -> Built {
    match allocated(b, 2, cx.func.name@, cx.func.span) {
        Err(x) => Err(x),
        Ok((first, b)) => {
            let b = emitted(b, Instr::Move { dst: first, src: dst });
            let b = emitted(b, Instr::Move { dst: (first + 1) as u16, src: elem_reg });
            let name_idx = const_index(b, ConstView::Str("set_insert"@));
            let b = emitted(
                with_const(b, ConstView::Str("set_insert"@)),
                Instr::BuiltinCall { dst, name_idx, args_start: first, n_args: 2 },
            );
            Ok(dropped(b, 2))
        },
    }
}

fn compile_insert(cx: &Unit, elem_reg: u16, dst: u16, b: &mut Builder) -> (r: Result<(), Error>)
    requires
        sound(old(b)@),
        elem_reg < old(b)@.max,
        dst < old(b)@.max,
    ensures
        built(r, old(b)@, final(b)@, insert_code(cx@, elem_reg, dst, old(b)@)),
{
    let first: u16 = match b.take_regs(2, cx.func.name.as_str(), cx.func.span) {
        Ok(r) => r,
        Err(x) => return Err(x),
    };
    b.emit(Instr::Move { dst: first, src: dst });
    b.emit(Instr::Move { dst: first + 1, src: elem_reg });
    let name_idx: u16 = b.const_idx(Const::Str(text("set_insert")));
    b.emit(Instr::BuiltinCall { dst, name_idx, args_start: first, n_args: 2 });
    b.drop_regs(2);
    Ok(())
}

/// A loop under compilation: its registers, none of which was in use before, the
/// place of its start, and that of the jump that leaves it.
#[derive(Debug, Clone, Copy, PartialEq, Eq, Structural)]
pub struct LoopRegs {
    /// The first register that was free.
    pub low: u16,
    /// The length of an array or a vector, or the cursor over a keyed state.
    pub bound_reg: u16,
    pub counter_reg: u16,
    pub one_reg: u16,
    pub var_reg: u16,
    pub loop_start: usize,
    pub exit: usize,
}

/// Whether the registers of a loop are fresh ones below `max`.
pub open spec fn fresh_regs(h: LoopRegs, max: u16) -> bool {
    h.low <= h.bound_reg < max
        && h.low <= h.counter_reg < max
        && h.low <= h.one_reg < max
        && h.low <= h.var_reg
        < max
}

pub open spec fn no_jumps() -> LoopView {
    LoopView { breaks: seq![], continues: seq![] }
}

fn no_frame() -> (r: LoopFrame)
    ensures
        r.break_jumps@ == no_jumps().breaks,
        r.continue_jumps@ == no_jumps().continues,
{
    LoopFrame { break_jumps: Vec::new(), continue_jumps: Vec::new() }
}

/// The back jump of a loop, and the jumps that wait for its end.
pub open spec fn loop_end(h: LoopRegs, frame: LoopView, b: BuilderView) -> BuilderView {
    let jump = b.code.len();
    let b = patched(emitted(b, Instr::Jump { offset: 0 }), jump, h.loop_start as nat);
    let end = b.code.len();
    patched_all(patched(b, h.exit as nat, end), frame.breaks, frame.breaks.len(), end)
}

fn close_loop(h: &LoopRegs, frame: &LoopFrame, b: &mut Builder)
    requires
        sound(old(b)@),
        h.loop_start <= old(b)@.code.len(),
    ensures
        final(b)@ == loop_end(
            *h,
            (LoopView { breaks: frame.break_jumps@, continues: frame.continue_jumps@ }),
            old(b)@,
        ),
        sound(final(b)@),
        grown(old(b)@, final(b)@),
        final(b)@.next == old(b)@.next,
{
    let jump: usize = b.code.len();
    b.emit(Instr::Jump { offset: 0 });
    b.patch(jump, h.loop_start);
    let end: usize = b.code.len();
    b.patch(h.exit, end);
    b.patch_all(&frame.break_jumps, end);
}

/// The head of a loop over an array: a counter from 0 to below its length.
pub open spec fn array_head(
    cx: UnitView,
    arr_reg: u16,
    var: Seq<char>,
    b: BuilderView,
) -> Result<(LoopRegs, BuilderView), ErrorView> {
    let low = b.next;
    match allocated(b, 1, cx.func.name@, cx.func.span) {
        Err(x) => Err(x),
        Ok((len_reg, b)) => {
            let b = emitted(b, Instr::BuiltinLen { dst: len_reg, src: arr_reg });
            match allocated(b, 1, cx.func.name@, cx.func.span) {
                Err(x) => Err(x),
                Ok((counter_reg, b)) => {
                    let zero_idx = const_index(b, ConstView::Int(0));
                    let b = with_const(b, ConstView::Int(0));
                    let b = emitted(b, Instr::LoadConst { dst: counter_reg, idx: zero_idx });
                    match allocated(b, 1, cx.func.name@, cx.func.span) {
                        Err(x) => Err(x),
                        Ok((one_reg, b)) => {
                            let one_idx = const_index(b, ConstView::Int(1));
                            let b = with_const(b, ConstView::Int(1));
                            let b = emitted(b, Instr::LoadConst { dst: one_reg, idx: one_idx });
                            match allocated(b, 1, cx.func.name@, cx.func.span) {
                                Err(x) => Err(x),
                                Ok((var_reg, b)) => {
                                    let b = scope_opened(b);
                                    let b = bound(b, var, var_reg);
                                    let loop_start = b.code.len();
                                    match allocated(b, 1, cx.func.name@, cx.func.span) {
                                        Err(x) => Err(x),
                                        Ok((check_reg, b)) => {
                                            let b = emitted(
                                                b,
                                                Instr::Bin {
                                                    op: BinOp::Lt,
                                                    dst: check_reg,
                                                    lhs: counter_reg,
                                                    rhs: len_reg,
                                                },
                                            );
                                            let exit = b.code.len();
                                            let b = emitted(
                                                b,
                                                Instr::JumpIfFalse {
                                                    cond: check_reg,
                                                    offset: 0,
                                                },
                                            );
                                            let b = freed(b, check_reg);
                                            let b = emitted(
                                                b,
                                                Instr::ArrayGet {
                                                    dst: var_reg,
                                                    arr: arr_reg,
                                                    idx: counter_reg,
                                                },
                                            );
                                            Ok((LoopRegs {
                                                low,
                                                bound_reg: len_reg,
                                                counter_reg: counter_reg,
                                                one_reg: one_reg,
                                                var_reg: var_reg,
                                                loop_start: loop_start as usize,
                                                exit: exit as usize
                                            },
                                            b))
                                        },
                                    }
                                },
                            }
                        },
                    }
                },
            }
        },
    }
}

#[verifier::rlimit(100)]
fn open_array_loop(cx: &Unit, arr_reg: u16, var: &str, b: &mut Builder) -> (r: Result<LoopRegs, Error>)
    requires
        sound(old(b)@),
        arr_reg < old(b)@.max,
    ensures
        match array_head(cx@, arr_reg, var@, old(b)@) {
            Ok((h, w)) => r == Ok::<LoopRegs, Error>(h) && final(b)@ == w && h.loop_start <= w.code.len()
                && sound(w) && fresh_regs(h, w.max)
                && h.low == old(b)@.next && h.low <= w.next && old(b)@.max <= w.max && w.scopes.len()
                == old(b)@.scopes.len() + 1 && w.pipes.len() == old(b)@.pipes.len() && w.loops.len()
                == old(b)@.loops.len() && old(b)@.code.len() <= w.code.len(),
            Err(x) => match r {
                Ok(_) => false,
                Err(e) => e@ == x,
            },
        },
{
    let low: u16 = b.next_reg;
    let len_reg: u16 = match b.take_regs(1, cx.func.name.as_str(), cx.func.span) {
        Ok(x) => x,
        Err(x) => return Err(x),
    };
    b.emit(Instr::BuiltinLen { dst: len_reg, src: arr_reg });
    let counter_reg: u16 = match b.take_regs(1, cx.func.name.as_str(), cx.func.span) {
        Ok(x) => x,
        Err(x) => return Err(x),
    };
    let zero_idx: u16 = b.const_idx(Const::Int(BigInt::from_i64(0)));
    b.emit(Instr::LoadConst { dst: counter_reg, idx: zero_idx });
    let one_reg: u16 = match b.take_regs(1, cx.func.name.as_str(), cx.func.span) {
        Ok(x) => x,
        Err(x) => return Err(x),
    };
    let one_idx: u16 = b.const_idx(Const::Int(BigInt::from_i64(1)));
    b.emit(Instr::LoadConst { dst: one_reg, idx: one_idx });
    let var_reg: u16 = match b.take_regs(1, cx.func.name.as_str(), cx.func.span) {
        Ok(x) => x,
        Err(x) => return Err(x),
    };
    b.open_scope();
    b.bind(var, var_reg);
    let loop_start: usize = b.code.len();
    let check_reg: u16 = match b.take_regs(1, cx.func.name.as_str(), cx.func.span) {
        Ok(x) => x,
        Err(x) => return Err(x),
    };
    b.emit(Instr::Bin { op: BinOp::Lt, dst: check_reg, lhs: counter_reg, rhs: len_reg });
    let exit: usize = b.code.len();
    b.emit(Instr::JumpIfFalse { cond: check_reg, offset: 0 });
    b.free(check_reg);
    b.emit(Instr::ArrayGet { dst: var_reg, arr: arr_reg, idx: counter_reg });
    Ok(LoopRegs {
        low,
        bound_reg: len_reg,
        counter_reg: counter_reg,
        one_reg: one_reg,
        var_reg: var_reg,
        loop_start: loop_start,
        exit: exit
    })
}

/// The end of a loop over an array.
pub open spec fn array_tail(h: LoopRegs, frame: LoopView, b: BuilderView) -> BuilderView {
    let continue_target = b.code.len();
    let b = patched_all(b, frame.continues, frame.continues.len(), continue_target);
    let b = emitted(b, Instr::Bin { op: BinOp::Add, dst: h.counter_reg, lhs: h.counter_reg, rhs: h.one_reg });
    let b = scope_closed(loop_end(h, frame, b));
    let b = freed(b, h.var_reg);
    let b = freed(b, h.one_reg);
    let b = freed(b, h.counter_reg);
    let b = freed(b, h.bound_reg);
    b
}

#[verifier::rlimit(100)]
fn close_array_loop(h: &LoopRegs, frame: &LoopFrame, b: &mut Builder)
    requires
        sound(old(b)@),
        h.loop_start <= old(b)@.code.len(),
        fresh_regs(*h, old(b)@.max),
        h.low <= old(b)@.next,
        old(b)@.scopes.len() > 0,
    ensures
        final(b)@ == array_tail(
            *h,
            (LoopView { breaks: frame.break_jumps@, continues: frame.continue_jumps@ }),
            old(b)@,
        ),
        sound(final(b)@),
        h.low <= final(b)@.next,
        old(b)@.max <= final(b)@.max,
        final(b)@.scopes.len() == old(b)@.scopes.len() - 1,
        final(b)@.pipes.len() == old(b)@.pipes.len(),
        final(b)@.loops.len() == old(b)@.loops.len(),
        old(b)@.code.len() <= final(b)@.code.len(),
{
    let continue_target: usize = b.code.len();
    b.patch_all(&frame.continue_jumps, continue_target);
    b.emit(Instr::Bin { op: BinOp::Add, dst: h.counter_reg, lhs: h.counter_reg, rhs: h.one_reg });
    close_loop(h, frame, b);
    b.close_scope();
    b.free(h.var_reg);
    b.free(h.one_reg);
    b.free(h.counter_reg);
    b.free(h.bound_reg);
}

/// The head of a loop over a persistent vector.
pub open spec fn vec_head(
    cx: UnitView,
    state_idx: u16,
    var: Seq<char>,
    b: BuilderView,
) -> Result<(LoopRegs, BuilderView), ErrorView> {
    let low = b.next;
    match allocated(b, 1, cx.func.name@, cx.func.span) {
        Err(x) => Err(x),
        Ok((len_reg, b)) => {
            let b = emitted(b, Instr::PVecLen { dst: len_reg, state_idx });
            match allocated(b, 1, cx.func.name@, cx.func.span) {
                Err(x) => Err(x),
                Ok((counter_reg, b)) => {
                    let zero_idx = const_index(b, ConstView::U64(0));
                    let b = with_const(b, ConstView::U64(0));
                    let b = emitted(b, Instr::LoadConst { dst: counter_reg, idx: zero_idx });
                    match allocated(b, 1, cx.func.name@, cx.func.span) {
                        Err(x) => Err(x),
                        Ok((var_reg, b)) => {
                            let b = scope_opened(b);
                            let b = bound(b, var, var_reg);
                            let loop_start = b.code.len();
                            match allocated(b, 1, cx.func.name@, cx.func.span) {
                                Err(x) => Err(x),
                                Ok((check_reg, b)) => {
                                    let b = emitted(
                                        b,
                                        Instr::Bin {
                                            op: BinOp::Lt,
                                            dst: check_reg,
                                            lhs: counter_reg,
                                            rhs: len_reg,
                                        },
                                    );
                                    let exit = b.code.len();
                                    let b = emitted(
                                        b,
                                        Instr::JumpIfFalse {
                                            cond: check_reg,
                                            offset: 0,
                                        },
                                    );
                                    let b = freed(b, check_reg);
                                    let b = emitted(
                                        b,
                                        Instr::PVecGet {
                                            dst: var_reg,
                                            state_idx,
                                            idx_reg: counter_reg,
                                        },
                                    );
                                    Ok((LoopRegs {
                                        low,
                                        bound_reg: len_reg,
                                        counter_reg: counter_reg,
                                        one_reg: counter_reg,
                                        var_reg: var_reg,
                                        loop_start: loop_start as usize,
                                        exit: exit as usize
                                    },
                                    b))
                                },
                            }
                        },
                    }
                },
            }
        },
    }
}

#[verifier::rlimit(100)]
fn open_vec_loop(cx: &Unit, state_idx: u16, var: &str, b: &mut Builder) -> (r: Result<LoopRegs, Error>)
    requires
        sound(old(b)@),
    ensures
        match vec_head(cx@, state_idx, var@, old(b)@) {
            Ok((h, w)) => r == Ok::<LoopRegs, Error>(h) && final(b)@ == w && h.loop_start <= w.code.len()
                && sound(w) && fresh_regs(h, w.max)
                && h.low == old(b)@.next && h.low <= w.next && old(b)@.max <= w.max && w.scopes.len()
                == old(b)@.scopes.len() + 1 && w.pipes.len() == old(b)@.pipes.len() && w.loops.len()
                == old(b)@.loops.len() && old(b)@.code.len() <= w.code.len(),
            Err(x) => match r {
                Ok(_) => false,
                Err(e) => e@ == x,
            },
        },
{
    let low: u16 = b.next_reg;
    let len_reg: u16 = match b.take_regs(1, cx.func.name.as_str(), cx.func.span) {
        Ok(x) => x,
        Err(x) => return Err(x),
    };
    b.emit(Instr::PVecLen { dst: len_reg, state_idx });
    let counter_reg: u16 = match b.take_regs(1, cx.func.name.as_str(), cx.func.span) {
        Ok(x) => x,
        Err(x) => return Err(x),
    };
    let zero_idx: u16 = b.const_idx(Const::U64(0));
    b.emit(Instr::LoadConst { dst: counter_reg, idx: zero_idx });
    let var_reg: u16 = match b.take_regs(1, cx.func.name.as_str(), cx.func.span) {
        Ok(x) => x,
        Err(x) => return Err(x),
    };
    b.open_scope();
    b.bind(var, var_reg);
    let loop_start: usize = b.code.len();
    let check_reg: u16 = match b.take_regs(1, cx.func.name.as_str(), cx.func.span) {
        Ok(x) => x,
        Err(x) => return Err(x),
    };
    b.emit(Instr::Bin { op: BinOp::Lt, dst: check_reg, lhs: counter_reg, rhs: len_reg });
    let exit: usize = b.code.len();
    b.emit(Instr::JumpIfFalse { cond: check_reg, offset: 0 });
    b.free(check_reg);
    b.emit(Instr::PVecGet { dst: var_reg, state_idx, idx_reg: counter_reg });
    Ok(LoopRegs {
        low,
        bound_reg: len_reg,
        counter_reg: counter_reg,
        one_reg: counter_reg,
        var_reg: var_reg,
        loop_start: loop_start,
        exit: exit
    })
}

/// The end of a loop over a persistent vector.
pub open spec fn vec_tail(h: LoopRegs, frame: LoopView, b: BuilderView) -> BuilderView {
    let continue_target = b.code.len();
    let b = patched_all(b, frame.continues, frame.continues.len(), continue_target);
    let b = emitted(b, Instr::IncReg { reg: h.counter_reg });
    let b = scope_closed(loop_end(h, frame, b));
    let b = freed(b, h.var_reg);
    let b = freed(b, h.counter_reg);
    let b = freed(b, h.bound_reg);
    b
}

#[verifier::rlimit(100)]
fn close_vec_loop(h: &LoopRegs, frame: &LoopFrame, b: &mut Builder)
    requires
        sound(old(b)@),
        h.loop_start <= old(b)@.code.len(),
        fresh_regs(*h, old(b)@.max),
        h.low <= old(b)@.next,
        old(b)@.scopes.len() > 0,
    ensures
        final(b)@ == vec_tail(
            *h,
            (LoopView { breaks: frame.break_jumps@, continues: frame.continue_jumps@ }),
            old(b)@,
        ),
        sound(final(b)@),
        h.low <= final(b)@.next,
        old(b)@.max <= final(b)@.max,
        final(b)@.scopes.len() == old(b)@.scopes.len() - 1,
        final(b)@.pipes.len() == old(b)@.pipes.len(),
        final(b)@.loops.len() == old(b)@.loops.len(),
        old(b)@.code.len() <= final(b)@.code.len(),
{
    let continue_target: usize = b.code.len();
    b.patch_all(&frame.continue_jumps, continue_target);
    b.emit(Instr::IncReg { reg: h.counter_reg });
    close_loop(h, frame, b);
    b.close_scope();
    b.free(h.var_reg);
    b.free(h.counter_reg);
    b.free(h.bound_reg);
}

/// The head of a loop over a keyed state.
pub open spec fn walk_head(
    cx: UnitView,
    state_idx: u16,
    ordered: bool,
    var: Seq<char>,
    b: BuilderView,
) -> Result<(LoopRegs, BuilderView), ErrorView> {
    let low = b.next;
    match allocated(b, 1, cx.func.name@, cx.func.span) {
        Err(x) => Err(x),
        Ok((cursor_reg, b)) => {
            let b = emitted(b, walk_init(ordered, cursor_reg, state_idx));
            match allocated(b, 1, cx.func.name@, cx.func.span) {
                Err(x) => Err(x),
                Ok((var_reg, b)) => {
                    let b = scope_opened(b);
                    let b = bound(b, var, var_reg);
                    let loop_start = b.code.len();
                    let exit = b.code.len();
                    let b = emitted(b, walk_next(ordered, cursor_reg, var_reg));
                    Ok((LoopRegs {
                        low,
                        bound_reg: cursor_reg,
                        counter_reg: cursor_reg,
                        one_reg: cursor_reg,
                        var_reg: var_reg,
                        loop_start: loop_start as usize,
                        exit: exit as usize
                    },
                    b))
                },
            }
        },
    }
}

#[verifier::rlimit(100)]
fn open_walk_loop(cx: &Unit, state_idx: u16, ordered: bool, var: &str, b: &mut Builder) -> (r: Result<LoopRegs, Error>)
    requires
        sound(old(b)@),
    ensures
        match walk_head(cx@, state_idx, ordered, var@, old(b)@) {
            Ok((h, w)) => r == Ok::<LoopRegs, Error>(h) && final(b)@ == w && h.loop_start <= w.code.len()
                && sound(w) && fresh_regs(h, w.max)
                && h.low == old(b)@.next && h.low <= w.next && old(b)@.max <= w.max && w.scopes.len()
                == old(b)@.scopes.len() + 1 && w.pipes.len() == old(b)@.pipes.len() && w.loops.len()
                == old(b)@.loops.len() && old(b)@.code.len() <= w.code.len(),
            Err(x) => match r {
                Ok(_) => false,
                Err(e) => e@ == x,
            },
        },
{
    let low: u16 = b.next_reg;
    let cursor_reg: u16 = match b.take_regs(1, cx.func.name.as_str(), cx.func.span) {
        Ok(x) => x,
        Err(x) => return Err(x),
    };
    b.emit(make_walk_init(ordered, cursor_reg, state_idx));
    let var_reg: u16 = match b.take_regs(1, cx.func.name.as_str(), cx.func.span) {
        Ok(x) => x,
        Err(x) => return Err(x),
    };
    b.open_scope();
    b.bind(var, var_reg);
    let loop_start: usize = b.code.len();
    let exit: usize = b.code.len();
    b.emit(make_walk_next(ordered, cursor_reg, var_reg));
    Ok(LoopRegs {
        low,
        bound_reg: cursor_reg,
        counter_reg: cursor_reg,
        one_reg: cursor_reg,
        var_reg: var_reg,
        loop_start: loop_start,
        exit: exit
    })
}

/// The end of a loop over a keyed state.
pub open spec fn walk_tail(h: LoopRegs, frame: LoopView, b: BuilderView) -> BuilderView {
    let continue_target = b.code.len();
    let b = patched_all(b, frame.continues, frame.continues.len(), continue_target);
    let b = scope_closed(loop_end(h, frame, b));
    let b = freed(b, h.var_reg);
    let b = freed(b, h.bound_reg);
    b
}

#[verifier::rlimit(100)]
fn close_walk_loop(h: &LoopRegs, frame: &LoopFrame, b: &mut Builder)
    requires
        sound(old(b)@),
        h.loop_start <= old(b)@.code.len(),
        fresh_regs(*h, old(b)@.max),
        h.low <= old(b)@.next,
        old(b)@.scopes.len() > 0,
    ensures
        final(b)@ == walk_tail(
            *h,
            (LoopView { breaks: frame.break_jumps@, continues: frame.continue_jumps@ }),
            old(b)@,
        ),
        sound(final(b)@),
        h.low <= final(b)@.next,
        old(b)@.max <= final(b)@.max,
        final(b)@.scopes.len() == old(b)@.scopes.len() - 1,
        final(b)@.pipes.len() == old(b)@.pipes.len(),
        final(b)@.loops.len() == old(b)@.loops.len(),
        old(b)@.code.len() <= final(b)@.code.len(),
{
    let continue_target: usize = b.code.len();
    b.patch_all(&frame.continue_jumps, continue_target);
    close_loop(h, frame, b);
    b.close_scope();
    b.free(h.var_reg);
    b.free(h.bound_reg);
}

/// The head of a loop over a range, whose bounds stand in two registers.
pub open spec fn range_head(
    cx: UnitView,
    counter: u16,
    limit: u16,
    inclusive: bool,
    var: Seq<char>,
    b: BuilderView,
) -> Result<(LoopRegs, BuilderView), ErrorView> {
    let low = b.next;
    let b = scope_opened(b);
    let b = bound(b, var, counter);
    let loop_start = b.code.len();
    match allocated(b, 1, cx.func.name@, cx.func.span) {
        Err(x) => Err(x),
        Ok((check_reg, b)) => {
            let op = if inclusive {
                BinOp::LtEq
            } else {
                BinOp::Lt
            };
            let b = emitted(b, Instr::Bin {
                op,
                dst: check_reg,
                lhs: counter,
                rhs: limit,
            });
            let exit = b.code.len();
            let b = emitted(b, Instr::JumpIfFalse { cond: check_reg, offset: 0 });
            let b = freed(b, check_reg);
            Ok((LoopRegs {
                low,
                bound_reg: check_reg,
                counter_reg: counter,
                one_reg: counter,
                var_reg: check_reg,
                loop_start: loop_start as usize,
                exit: exit as usize
            },
            b))
        },
    }
}

#[verifier::rlimit(100)]
fn open_range_loop(
    cx: &Unit,
    counter: u16,
    limit: u16,
    inclusive: bool,
    var: &str,
    b: &mut Builder,
) -> (r: Result<LoopRegs, Error>)
    requires
        sound(old(b)@),
        counter < old(b)@.max,
        limit < old(b)@.max,
    ensures
        match range_head(cx@, counter, limit, inclusive, var@, old(b)@) {
            Ok((h, w)) => r == Ok::<LoopRegs, Error>(h) && final(b)@ == w && h.loop_start <= w.code.len()
                && sound(w) && h.counter_reg < w.max
                && h.low == old(b)@.next && h.low <= w.next && old(b)@.max <= w.max && w.scopes.len()
                == old(b)@.scopes.len() + 1 && w.pipes.len() == old(b)@.pipes.len() && w.loops.len()
                == old(b)@.loops.len() && old(b)@.code.len() <= w.code.len(),
            Err(x) => match r {
                Ok(_) => false,
                Err(e) => e@ == x,
            },
        },
{
    let low: u16 = b.next_reg;
    b.open_scope();
    b.bind(var, counter);
    let loop_start: usize = b.code.len();
    let check_reg: u16 = match b.take_regs(1, cx.func.name.as_str(), cx.func.span) {
        Ok(x) => x,
        Err(x) => return Err(x),
    };
    let op = if inclusive {
        BinOp::LtEq
    } else {
        BinOp::Lt
    };
    b.emit(Instr::Bin { op, dst: check_reg, lhs: counter, rhs: limit });
    let exit: usize = b.code.len();
    b.emit(Instr::JumpIfFalse { cond: check_reg, offset: 0 });
    b.free(check_reg);
    Ok(LoopRegs {
        low,
        bound_reg: check_reg,
        counter_reg: counter,
        one_reg: counter,
        var_reg: check_reg,
        loop_start: loop_start,
        exit: exit
    })
}

/// The end of a loop over a range.
pub open spec fn range_tail(h: LoopRegs, frame: LoopView, b: BuilderView) -> BuilderView {
    let continue_target = b.code.len();
    let b = patched_all(b, frame.continues, frame.continues.len(), continue_target);
    let b = emitted(b, Instr::IncReg { reg: h.counter_reg });
    let b = scope_closed(loop_end(h, frame, b));
    b
}

#[verifier::rlimit(100)]
fn close_range_loop(h: &LoopRegs, frame: &LoopFrame, b: &mut Builder)
    requires
        sound(old(b)@),
        h.loop_start <= old(b)@.code.len(),
        h.counter_reg < old(b)@.max,
        h.low <= old(b)@.next,
        old(b)@.scopes.len() > 0,
    ensures
        final(b)@ == range_tail(
            *h,
            (LoopView { breaks: frame.break_jumps@, continues: frame.continue_jumps@ }),
            old(b)@,
        ),
        sound(final(b)@),
        h.low <= final(b)@.next,
        old(b)@.max <= final(b)@.max,
        final(b)@.scopes.len() == old(b)@.scopes.len() - 1,
        final(b)@.pipes.len() == old(b)@.pipes.len(),
        final(b)@.loops.len() == old(b)@.loops.len(),
        old(b)@.code.len() <= final(b)@.code.len(),
{
    let continue_target: usize = b.code.len();
    b.patch_all(&frame.continue_jumps, continue_target);
    b.emit(Instr::IncReg { reg: h.counter_reg });
    close_loop(h, frame, b);
    b.close_scope();
}


// The code of expressions and statements. A chain of constants that refer to each
// other may be at most `d` long: as long as there are constants.

/// The code that leaves the value of an expression in `dst`.
pub open spec fn expr_into(cx: UnitView, d: nat, e: Expr, dst: u16, b: BuilderView) -> Built
    decreases d, e, 3nat, 0nat,
{
    match e.kind {
        ExprKind::Int(n) => {
            let idx = const_index(b, ConstView::Int(n@));
            let b = with_const(b, ConstView::Int(n@));
            let b = emitted(b, Instr::LoadConst { dst, idx });
            Ok(b)
        },
        ExprKind::UInt(n) => {
            let idx = const_index(b, ConstView::UInt(n@));
            let b = with_const(b, ConstView::UInt(n@));
            let b = emitted(b, Instr::LoadConst { dst, idx });
            Ok(b)
        },
        ExprKind::Float(n) => {
            let idx = const_index(b, ConstView::Float(n));
            let b = with_const(b, ConstView::Float(n));
            let b = emitted(b, Instr::LoadConst { dst, idx });
            Ok(b)
        },
        ExprKind::I32(n) => {
            let idx = const_index(b, ConstView::I32(n));
            let b = with_const(b, ConstView::I32(n));
            let b = emitted(b, Instr::LoadConst { dst, idx });
            Ok(b)
        },
        ExprKind::U32(n) => {
            let idx = const_index(b, ConstView::U32(n));
            let b = with_const(b, ConstView::U32(n));
            let b = emitted(b, Instr::LoadConst { dst, idx });
            Ok(b)
        },
        ExprKind::U64(n) => {
            let idx = const_index(b, ConstView::U64(n));
            let b = with_const(b, ConstView::U64(n));
            let b = emitted(b, Instr::LoadConst { dst, idx });
            Ok(b)
        },
        ExprKind::U128(n) => {
            let idx = const_index(b, ConstView::U128(n));
            let b = with_const(b, ConstView::U128(n));
            let b = emitted(b, Instr::LoadConst { dst, idx });
            Ok(b)
        },
        ExprKind::Bool(n) => {
            let idx = const_index(b, ConstView::Bool(n));
            let b = with_const(b, ConstView::Bool(n));
            let b = emitted(b, Instr::LoadConst { dst, idx });
            Ok(b)
        },
        ExprKind::Str(n) => {
            let idx = const_index(b, ConstView::Str(n@));
            let b = with_const(b, ConstView::Str(n@));
            let b = emitted(b, Instr::LoadConst { dst, idx });
            Ok(b)
        },
        ExprKind::JsonNull => Err(type_error("JSON literals cannot be compiled"@, e.span)),
        ExprKind::JsonObject(ps) => Err(type_error("JSON literals cannot be compiled"@, e.span)),
        ExprKind::JsonArray(es) => Err(type_error("JSON literals cannot be compiled"@, e.span)),
        ExprKind::Ident(name) => ident_into(cx, d, e, name@, dst, b),
        ExprKind::Binary { op, lhs, rhs } => binary_into(cx, d, e, dst, b),
        ExprKind::Unary { op, operand } => match expr_into(cx, d, *operand, dst, b) {
            Err(x) => Err(x),
            Ok(b) => {
                let b = emitted(b, Instr::Un { op: op, dst, src: dst });
                Ok(b)
            },
        },
        ExprKind::Index { target, key } => index_into(cx, d, e, dst, b),
        ExprKind::Array(es) => array_into(cx, d, e, dst, b),
        ExprKind::StructLit { name, fields } => struct_into(cx, d, e, dst, b),
        ExprKind::Field { target, name } => field_into(cx, d, e, dst, b),
        ExprKind::Prev => match last_pipe(b) {
            None => Err(type_error("$$ used outside of a pipe stage"@, e.span)),
            Some(r) => {
                let b = if r != dst {
                    emitted(b, Instr::Move { dst, src: r })
                } else {
                    b
                };
                Ok(b)
            },
        },
        ExprKind::Pipe { head, step } => pipe_into(cx, d, e, dst, b),
        ExprKind::SetLit(es) => set_into(cx, d, e, dst, b),
        ExprKind::DictLit(ps) => dict_into(cx, d, e, dst, b),
        ExprKind::ListComp { mapper, clauses } => {
            let b = emitted(b, Instr::MakeArray { dst, args_start: 0, n: 0 });
            comp_code(cx, d, e, clauses@, 0, dst, b)
        },
        ExprKind::SetComp { mapper, clauses } => {
            let b = emitted(b, Instr::MakeSet { dst, args_start: 0, n: 0 });
            comp_code(cx, d, e, clauses@, 0, dst, b)
        },
        ExprKind::DictComp { key, value, clauses } => {
            let b = emitted(b, Instr::MakeDict { dst, args_start: 0, n_pairs: 0 });
            comp_code(cx, d, e, clauses@, 0, dst, b)
        },
        ExprKind::DynCall { target_ident, method, args, method_is_view, method_is_pure } => dyn_into(cx, d, e, dst, b),
        ExprKind::Call { module, name, args } => call_into(cx, d, e, dst, b),
        ExprKind::TupleLit(es) => tuple_into(cx, d, e, dst, b),
        ExprKind::TupleIndex { target, index } => match allocated(b, 1, cx.func.name@, cx.func.span) {
            Err(x) => Err(x),
            Ok((src, b)) => match expr_into(cx, d, *target, src, b) {
                Err(x) => Err(x),
                Ok(b) => {
                    let b = emitted(b, Instr::TupleGet { dst, src, index: index as u16 });
                    let b = freed(b, src);
                    Ok(b)
                },
            },
        },
        ExprKind::EnumCtor { enum_name, variant, args } => enum_into(cx, d, e, dst, b),
        ExprKind::Match { scrut, arms } => match_into(cx, d, e, dst, b),
        ExprKind::Block(blk) => block_into(cx, d, blk, dst, b),
        ExprKind::If { cond, then_block, else_branch } => if_expr_into(cx, d, e, dst, b),
    }
}

#[verifier::rlimit(100)]
#[verifier::spinoff_prover]
fn compile_expr_into(cx: &Unit, d: usize, e: &Expr, dst: u16, b: &mut Builder) -> (r: Result<(), Error>)
    requires
        sound(old(b)@),
        dst < old(b)@.max,
    ensures
        built(r, old(b)@, final(b)@, expr_into(cx@, d as nat, *e, dst, old(b)@)),
    decreases d, e, 3nat, 0nat,
{
    match &e.kind {
        ExprKind::Int(n) => {
            let idx: u16 = b.const_idx(Const::Int(n.copy()));
            b.emit(Instr::LoadConst { dst, idx });
            Ok(())
        }
        ExprKind::UInt(n) => {
            let idx: u16 = b.const_idx(Const::UInt(n.copy()));
            b.emit(Instr::LoadConst { dst, idx });
            Ok(())
        }
        ExprKind::Float(n) => {
            let idx: u16 = b.const_idx(Const::Float(*n));
            b.emit(Instr::LoadConst { dst, idx });
            Ok(())
        }
        ExprKind::I32(n) => {
            let idx: u16 = b.const_idx(Const::I32(*n));
            b.emit(Instr::LoadConst { dst, idx });
            Ok(())
        }
        ExprKind::U32(n) => {
            let idx: u16 = b.const_idx(Const::U32(*n));
            b.emit(Instr::LoadConst { dst, idx });
            Ok(())
        }
        ExprKind::U64(n) => {
            let idx: u16 = b.const_idx(Const::U64(*n));
            b.emit(Instr::LoadConst { dst, idx });
            Ok(())
        }
        ExprKind::U128(n) => {
            let idx: u16 = b.const_idx(Const::U128(*n));
            b.emit(Instr::LoadConst { dst, idx });
            Ok(())
        }
        ExprKind::Bool(n) => {
            let idx: u16 = b.const_idx(Const::Bool(*n));
            b.emit(Instr::LoadConst { dst, idx });
            Ok(())
        }
        ExprKind::Str(n) => {
            let idx: u16 = b.const_idx(Const::Str(n.clone()));
            b.emit(Instr::LoadConst { dst, idx });
            Ok(())
        }
        ExprKind::JsonNull => {
            Err(type_err(text("JSON literals cannot be compiled"), e.span))
        }
        ExprKind::JsonObject(_) => {
            Err(type_err(text("JSON literals cannot be compiled"), e.span))
        }
        ExprKind::JsonArray(_) => {
            Err(type_err(text("JSON literals cannot be compiled"), e.span))
        }
        ExprKind::Ident(name) => {
            compile_ident(cx, d, e, name.as_str(), dst, b)
        }
        ExprKind::Binary { op: _, lhs: _, rhs: _ } => {
            compile_binary(cx, d, e, dst, b)
        }
        ExprKind::Unary { op, operand } => {
            match compile_expr_into(cx, d, operand, dst, b) {
                Ok(_) => {},
                Err(x) => return Err(x),
            }
            b.emit(Instr::Un { op: *op, dst, src: dst });
            Ok(())
        }
        ExprKind::Index { target: _, key: _ } => {
            compile_index(cx, d, e, dst, b)
        }
        ExprKind::Array(_) => {
            compile_array(cx, d, e, dst, b)
        }
        ExprKind::StructLit { name: _, fields: _ } => {
            compile_struct(cx, d, e, dst, b)
        }
        ExprKind::Field { target: _, name: _ } => {
            compile_field(cx, d, e, dst, b)
        }
        ExprKind::Prev => {
            match b.find_pipe() {
                None => {
                    Err(type_err(text("$$ used outside of a pipe stage"), e.span))
                }
                Some(r) => {
                    if r != dst {
                        b.emit(Instr::Move { dst, src: r });
                    }
                    Ok(())
                }
            }
        }
        ExprKind::Pipe { head: _, step: _ } => {
            compile_pipe(cx, d, e, dst, b)
        }
        ExprKind::SetLit(_) => {
            compile_set(cx, d, e, dst, b)
        }
        ExprKind::DictLit(_) => {
            compile_dict(cx, d, e, dst, b)
        }
        ExprKind::ListComp { mapper: _, clauses } => {
            b.emit(Instr::MakeArray { dst, args_start: 0, n: 0 });
            lower_comp(cx, d, e, clauses, 0, dst, b)
        }
        ExprKind::SetComp { mapper: _, clauses } => {
            b.emit(Instr::MakeSet { dst, args_start: 0, n: 0 });
            lower_comp(cx, d, e, clauses, 0, dst, b)
        }
        ExprKind::DictComp { key: _, value: _, clauses } => {
            b.emit(Instr::MakeDict { dst, args_start: 0, n_pairs: 0 });
            lower_comp(cx, d, e, clauses, 0, dst, b)
        }
        ExprKind::DynCall { target_ident: _, method: _, args: _, method_is_view: _, method_is_pure: _ } => {
            compile_dyn_call(cx, d, e, dst, b)
        }
        ExprKind::Call { module: _, name: _, args: _ } => {
            compile_call(cx, d, e, dst, b)
        }
        ExprKind::TupleLit(_) => {
            compile_tuple(cx, d, e, dst, b)
        }
        ExprKind::TupleIndex { target, index } => {
            let src: u16 = match b.take_regs(1, cx.func.name.as_str(), cx.func.span) {
                Ok(x) => x,
                Err(x) => return Err(x),
            };
            match compile_expr_into(cx, d, target, src, b) {
                Ok(_) => {},
                Err(x) => return Err(x),
            }
            b.emit(Instr::TupleGet { dst, src, index: *index as u16 });
            b.free(src);
            Ok(())
        }
        ExprKind::EnumCtor { enum_name: _, variant: _, args: _ } => {
            compile_enum(cx, d, e, dst, b)
        }
        ExprKind::Match { scrut: _, arms: _ } => {
            compile_match(cx, d, e, dst, b)
        }
        ExprKind::Block(blk) => {
            compile_block_into(cx, d, blk, dst, b)
        }
        ExprKind::If { cond: _, then_block: _, else_branch: _ } => {
            compile_if_expr(cx, d, e, dst, b)
        }
    }
}

/// A struct literal: its fields in the order of the declaration.
pub open spec fn struct_into(cx: UnitView, d: nat, e: Expr, dst: u16, b: BuilderView) -> Built
    decreases d, e, 2nat, 0nat,
{
    match e.kind {
        ExprKind::StructLit { name, fields } => match struct_at(cx.module, name@) {
            None => Err(type_error("unknown struct '"@ + name@ + "'"@, e.span)),
            Some((k, decl)) => match allocated(b, decl.len(), cx.func.name@, cx.func.span) {
                Err(x) => Err(x),
                Ok((args_start, b)) => match fields_into(cx, d, decl, 0, fields@, name@, e.span, args_start, b) {
                    Err(x) => Err(x),
                    Ok(b) => {
                        let b = emitted(
                            b,
                            Instr::MakeStruct { dst, shape_idx: k as u16, args_start, n: decl.len() as u16 },
                        );
                        let b = dropped(b, decl.len());
                        Ok(b)
                    },
                },
            },
        },
        _ => Ok(b),
    }
}

#[verifier::rlimit(100)]
fn compile_struct(cx: &Unit, d: usize, e: &Expr, dst: u16, b: &mut Builder) -> (r: Result<(), Error>)
    requires
        sound(old(b)@),
        dst < old(b)@.max,
    ensures
        built(r, old(b)@, final(b)@, struct_into(cx@, d as nat, *e, dst, old(b)@)),
    decreases d, e, 2nat, 0nat,
{
    match &e.kind {
        ExprKind::StructLit { name, fields } => {
            match find_struct(cx.module, name.as_str()) {
                None => {
                    Err(type_err(concat3("unknown struct '", name.as_str(), "'"), e.span))
                }
                Some((k, decl)) => {
                    let args_start: u16 = match b.take_regs(decl.len(), cx.func.name.as_str(), cx.func.span) {
                        Ok(x) => x,
                        Err(x) => return Err(x),
                    };
                    match compile_fields(cx, d, decl, fields, name.as_str(), e.span, args_start, b) {
                        Ok(_) => {},
                        Err(x) => return Err(x),
                    }
                    b.emit(Instr::MakeStruct { dst, shape_idx: k as u16, args_start, n: decl.len() as u16 });
                    b.drop_regs(decl.len());
                    Ok(())
                }
            }
        }
        _ => {
            Ok(())
        }
    }
}

/// A field: of a state, read by itself, or of a value.
pub open spec fn field_into(cx: UnitView, d: nat, e: Expr, dst: u16, b: BuilderView) -> Built
    decreases d, e, 2nat, 0nat,
{
    match e.kind {
        ExprKind::Field { target, name } => match path_of(cx, b.scopes, e) {
            Some(p) => {
                let path_idx = path_number(b, p);
                let b = with_path(b, p);
                let b = emitted(b, Instr::KvGetPath { dst, path_idx });
                Ok(b)
            },
            None => match allocated(b, 1, cx.func.name@, cx.func.span) {
                Err(x) => Err(x),
                Ok((src, b)) => match expr_into(cx, d, *target, src, b) {
                    Err(x) => Err(x),
                    Ok(b) => {
                        let name_idx = const_index(b, ConstView::Str(name@));
                        let b = with_const(b, ConstView::Str(name@));
                        let b = emitted(b, Instr::FieldGet { dst, src, name_idx });
                        let b = freed(b, src);
                        Ok(b)
                    },
                },
            },
        },
        _ => Ok(b),
    }
}

#[verifier::rlimit(100)]
fn compile_field(cx: &Unit, d: usize, e: &Expr, dst: u16, b: &mut Builder) -> (r: Result<(), Error>)
    requires
        sound(old(b)@),
        dst < old(b)@.max,
    ensures
        built(r, old(b)@, final(b)@, field_into(cx@, d as nat, *e, dst, old(b)@)),
    decreases d, e, 2nat, 0nat,
{
    match &e.kind {
        ExprKind::Field { target, name } => {
            match find_path(cx, b, e) {
                Some((state_idx, path, key, ty)) => {
                    let path_idx: u16 = b.intern_path(state_idx, path, key, ty.copy());
                    b.emit(Instr::KvGetPath { dst, path_idx });
                    Ok(())
                }
                None => {
                    let src: u16 = match b.take_regs(1, cx.func.name.as_str(), cx.func.span) {
                        Ok(x) => x,
                        Err(x) => return Err(x),
                    };
                    match compile_expr_into(cx, d, target, src, b) {
                        Ok(_) => {},
                        Err(x) => return Err(x),
                    }
                    let name_idx: u16 = b.const_idx(Const::Str(name.clone()));
                    b.emit(Instr::FieldGet { dst, src, name_idx });
                    b.free(src);
                    Ok(())
                }
            }
        }
        _ => {
            Ok(())
        }
    }
}

/// A pipe.
pub open spec fn pipe_into(cx: UnitView, d: nat, e: Expr, dst: u16, b: BuilderView) -> Built
    decreases d, e, 2nat, 0nat,
{
    match e.kind {
        ExprKind::Pipe { head, step } => match allocated(b, 1, cx.func.name@, cx.func.span) {
            Err(x) => Err(x),
            Ok((stash, b)) => match expr_into(cx, d, *head, stash, b) {
                Err(x) => Err(x),
                Ok(b) => {
                    let b = pipe_opened(b, stash);
                    match expr_into(cx, d, *step, dst, b) {
                        Err(x) => Err(x),
                        Ok(b) => {
                            let b = pipe_closed(b);
                            let b = freed(b, stash);
                            Ok(b)
                        },
                    }
                },
            },
        },
        _ => Ok(b),
    }
}

#[verifier::rlimit(100)]
fn compile_pipe(cx: &Unit, d: usize, e: &Expr, dst: u16, b: &mut Builder) -> (r: Result<(), Error>)
    requires
        sound(old(b)@),
        dst < old(b)@.max,
    ensures
        built(r, old(b)@, final(b)@, pipe_into(cx@, d as nat, *e, dst, old(b)@)),
    decreases d, e, 2nat, 0nat,
{
    match &e.kind {
        ExprKind::Pipe { head, step } => {
            let stash: u16 = match b.take_regs(1, cx.func.name.as_str(), cx.func.span) {
                Ok(x) => x,
                Err(x) => return Err(x),
            };
            match compile_expr_into(cx, d, head, stash, b) {
                Ok(_) => {},
                Err(x) => return Err(x),
            }
            b.push_pipe(stash);
            match compile_expr_into(cx, d, step, dst, b) {
                Ok(_) => {},
                Err(x) => return Err(x),
            }
            b.pop_pipe();
            b.free(stash);
            Ok(())
        }
        _ => {
            Ok(())
        }
    }
}

/// A dict literal.
pub open spec fn dict_into(cx: UnitView, d: nat, e: Expr, dst: u16, b: BuilderView) -> Built
    decreases d, e, 2nat, 0nat,
{
    match e.kind {
        ExprKind::DictLit(ps) => match allocated(b, (2 * ps@.len()) as nat, cx.func.name@, cx.func.span) {
            Err(x) => Err(x),
            Ok((args_start, b)) => match pairs_into(cx, d, ps@, 0, args_start, b) {
                Err(x) => Err(x),
                Ok(b) => {
                    let b = emitted(b, Instr::MakeDict {
                        dst, args_start, n_pairs: ps@.len() as u16
                    });
                    let b = dropped(b, (2 * ps@.len()) as nat);
                    Ok(b)
                },
            },
        },
        _ => Ok(b),
    }
}

#[verifier::rlimit(100)]
fn compile_dict(cx: &Unit, d: usize, e: &Expr, dst: u16, b: &mut Builder) -> (r: Result<(), Error>)
    requires
        sound(old(b)@),
        dst < old(b)@.max,
    ensures
        built(r, old(b)@, final(b)@, dict_into(cx@, d as nat, *e, dst, old(b)@)),
    decreases d, e, 2nat, 0nat,
{
    match &e.kind {
        ExprKind::DictLit(ps) => {
            let args_start: u16 = match b.take_pairs(ps.len(), cx.func.name.as_str(), cx.func.span) {
                Ok(x) => x,
                Err(x) => return Err(x),
            };
            match compile_pairs(cx, d, ps, args_start, b) {
                Ok(_) => {},
                Err(x) => return Err(x),
            }
            b.emit(Instr::MakeDict { dst, args_start, n_pairs: ps.len() as u16 });
            b.drop_regs(2 * ps.len());
            Ok(())
        }
        _ => {
            Ok(())
        }
    }
}

/// A call through an interface value.
pub open spec fn dyn_into(cx: UnitView, d: nat, e: Expr, dst: u16, b: BuilderView) -> Built
    decreases d, e, 2nat, 0nat,
{
    match e.kind {
        ExprKind::DynCall { target_ident, method, args, method_is_view, method_is_pure } => match allocated(b, 1, cx.func.name@, cx.func.span) {
            Err(x) => Err(x),
            Ok((target_reg, b)) => match ident_into(cx, d, e, target_ident@, target_reg, b) {
                Err(x) => Err(x),
                Ok(b) => match allocated(b, args@.len() as nat, cx.func.name@, cx.func.span) {
                    Err(x) => Err(x),
                    Ok((args_start, b)) => match exprs_into(cx, d, args@, 0, args_start, b) {
                        Err(x) => Err(x),
                        Ok(b) => {
                            let fn_name_idx = const_index(b, ConstView::Str(method@));
                            let b = with_const(b, ConstView::Str(method@));
                            let b = emitted(b, Instr::CallExternalDyn {
                                dst,
                                target_reg,
                                fn_name_idx,
                                args_start,
                                n_args: args@.len() as u8,
                                is_view: method_is_view,
                                is_pure: method_is_pure
                            });
                            let b = dropped(b, args@.len() as nat);
                            let b = freed(b, target_reg);
                            Ok(b)
                        },
                    },
                },
            },
        },
        _ => Ok(b),
    }
}

#[verifier::rlimit(100)]
fn compile_dyn_call(cx: &Unit, d: usize, e: &Expr, dst: u16, b: &mut Builder) -> (r: Result<(), Error>)
    requires
        sound(old(b)@),
        dst < old(b)@.max,
    ensures
        built(r, old(b)@, final(b)@, dyn_into(cx@, d as nat, *e, dst, old(b)@)),
    decreases d, e, 2nat, 0nat,
{
    match &e.kind {
        ExprKind::DynCall { target_ident, method, args, method_is_view, method_is_pure } => {
            let target_reg: u16 = match b.take_regs(1, cx.func.name.as_str(), cx.func.span) {
                Ok(x) => x,
                Err(x) => return Err(x),
            };
            match compile_ident(cx, d, e, target_ident.as_str(), target_reg, b) {
                Ok(_) => {},
                Err(x) => return Err(x),
            }
            let args_start: u16 = match b.take_regs(args.len(), cx.func.name.as_str(), cx.func.span) {
                Ok(x) => x,
                Err(x) => return Err(x),
            };
            match compile_exprs(cx, d, args, args_start, b) {
                Ok(_) => {},
                Err(x) => return Err(x),
            }
            let fn_name_idx: u16 = b.const_idx(Const::Str(method.clone()));
            b.emit(Instr::CallExternalDyn {
                dst,
                target_reg,
                fn_name_idx,
                args_start,
                n_args: args.len() as u8,
                is_view: *method_is_view,
                is_pure: *method_is_pure,
            });
            b.drop_regs(args.len());
            b.free(target_reg);
            Ok(())
        }
        _ => {
            Ok(())
        }
    }
}

/// A call.
pub open spec fn call_into(cx: UnitView, d: nat, e: Expr, dst: u16, b: BuilderView) -> Built
    decreases d, e, 2nat, 0nat,
{
    match e.kind {
        ExprKind::Call { module, name, args } => if unary_builtin(name@) != 0 && args@.len() == 1 {
            one_arg_into(cx, d, args@, unary_builtin(name@), dst, b)
        } else {
            if state_builtin(name@) != 0 {
                state_call_into(cx, d, args@, name@, e.span, dst, b)
            } else {
                if lists_builtin(cx, name@) {
                    match allocated(b, args@.len() as nat, cx.func.name@, cx.func.span) {
                        Err(x) => Err(x),
                        Ok((args_start, b)) => match exprs_into(cx, d, args@, 0, args_start, b) {
                            Err(x) => Err(x),
                            Ok(b) => {
                                let name_idx = const_index(b, ConstView::Str(name@));
                                let b = with_const(b, ConstView::Str(name@));
                                let b = emitted(b, Instr::BuiltinCall {
                                    dst, name_idx, args_start, n_args: args@.len() as u8
                                });
                                let b = dropped(b, args@.len() as nat);
                                Ok(b)
                            },
                        },
                    }
                } else {
                    if context_kind(name@) is Some && args@.len() == 0 {
                        match context_kind(name@) {
                            Some(kind) => {
                                let b = emitted(b, Instr::Context { dst, kind });
                                Ok(b)
                            },
                            None => Ok(b),
                        }
                    } else {
                        if conversion_target(name@) is Some && args@.len() == 1 {
                            match conversion_target(name@) {
                                Some(target) => match allocated(b, 1, cx.func.name@, cx.func.span) {
                                    Err(x) => Err(x), Ok((r, b)) => match arg_into(cx, d, args@, 0, r, b) {
                                        Err(x) => Err(x), Ok(b) => {
                                            let b = emitted(b, Instr::Convert { dst, src: r, target });
                                            let b = freed(b, r);
                                            Ok(b)
                                        },
                                    },
                                },
                                None => Ok(b),
                            }
                        } else {
                            plain_call_into(cx, d, e, dst, b)
                        }
                    }
                }
            }
        },
        _ => Ok(b),
    }
}

#[verifier::rlimit(100)]
fn compile_call(cx: &Unit, d: usize, e: &Expr, dst: u16, b: &mut Builder) -> (r: Result<(), Error>)
    requires
        sound(old(b)@),
        dst < old(b)@.max,
    ensures
        built(r, old(b)@, final(b)@, call_into(cx@, d as nat, *e, dst, old(b)@)),
    decreases d, e, 2nat, 0nat,
{
    match &e.kind {
        ExprKind::Call { module: _, name, args } => {
            if find_unary_builtin(name.as_str()) != 0 && args.len() == 1 {
                compile_one_arg(cx, d, args, find_unary_builtin(name.as_str()), dst, b)
            } else {
                if find_state_builtin(name.as_str()) != 0 {
                    compile_state_call(cx, d, args, name.as_str(), e.span, dst, b)
                } else {
                    if is_listed(cx, name.as_str()) {
                        let args_start: u16 = match b.take_regs(args.len(), cx.func.name.as_str(), cx.func.span) {
                            Ok(x) => x,
                            Err(x) => return Err(x),
                        };
                        match compile_exprs(cx, d, args, args_start, b) {
                            Ok(_) => {},
                            Err(x) => return Err(x),
                        }
                        let name_idx: u16 = b.const_idx(Const::Str(name.clone()));
                        b.emit(Instr::BuiltinCall { dst, name_idx, args_start, n_args: args.len() as u8 });
                        b.drop_regs(args.len());
                        Ok(())
                    } else {
                        if find_context(name.as_str()).is_some() && args.len() == 0 {
                            match find_context(name.as_str()) {
                                Some(kind) => {
                                    b.emit(Instr::Context { dst, kind });
                                    Ok(())
                                }
                                None => {
                                    Ok(())
                                }
                            }
                        } else {
                            if find_target(name.as_str()).is_some() && args.len() == 1 {
                                match find_target(name.as_str()) {
                                    Some(target) => {
                                        let r: u16 = match b.take_regs(1, cx.func.name.as_str(), cx.func.span) {
                                            Ok(x) => x,
                                            Err(x) => return Err(x),
                                        };
                                        match compile_arg(cx, d, args, 0, r, b) {
                                            Ok(_) => {},
                                            Err(x) => return Err(x),
                                        }
                                        b.emit(Instr::Convert { dst, src: r, target });
                                        b.free(r);
                                        Ok(())
                                    }
                                    None => {
                                        Ok(())
                                    }
                                }
                            } else {
                                compile_plain_call(cx, d, e, dst, b)
                            }
                        }
                    }
                }
            }
        }
        _ => {
            Ok(())
        }
    }
}

/// An enum value.
pub open spec fn enum_into(cx: UnitView, d: nat, e: Expr, dst: u16, b: BuilderView) -> Built
    decreases d, e, 2nat, 0nat,
{
    match e.kind {
        ExprKind::EnumCtor { enum_name, variant, args } => match place(cx.module.enums@, enum_name@) {
            None => Err(type_error("unknown enum '"@ + enum_name@ + "'"@, e.span)),
            Some(k) => match first_place(cx.module.enums@[k].variants@, variant@) {
                None => Err(type_error("enum '"@ + enum_name@ + "' has no variant '"@ + variant@ + "'"@, e.span)),
                Some(v) => match allocated(b, args@.len() as nat, cx.func.name@, cx.func.span) {
                    Err(x) => Err(x),
                    Ok((args_start, b)) => match exprs_into(cx, d, args@, 0, args_start, b) {
                        Err(x) => Err(x),
                        Ok(b) => {
                            let b = emitted(b, Instr::MakeEnum {
                                dst,
                                shape_idx: k as u16,
                                variant_idx: v as u16,
                                args_start,
                                n: args@.len() as u16
                            });
                            let b = dropped(b, args@.len() as nat);
                            Ok(b)
                        },
                    },
                },
            },
        },
        _ => Ok(b),
    }
}

#[verifier::rlimit(100)]
fn compile_enum(cx: &Unit, d: usize, e: &Expr, dst: u16, b: &mut Builder) -> (r: Result<(), Error>)
    requires
        sound(old(b)@),
        dst < old(b)@.max,
    ensures
        built(r, old(b)@, final(b)@, enum_into(cx@, d as nat, *e, dst, old(b)@)),
    decreases d, e, 2nat, 0nat,
{
    match &e.kind {
        ExprKind::EnumCtor { enum_name, variant, args } => {
            match find_last(&cx.module.enums, enum_name.as_str()) {
                None => {
                    Err(type_err(concat3("unknown enum '", enum_name.as_str(), "'"), e.span))
                }
                Some(k) => {
                    match find_first(&cx.module.enums[k].variants, variant.as_str()) {
                        None => {
                            Err(type_err(no_variant(enum_name.as_str(), variant.as_str()), e.span))
                        }
                        Some(v) => {
                            let args_start: u16 = match b.take_regs(args.len(), cx.func.name.as_str(), cx.func.span) {
                                Ok(x) => x,
                                Err(x) => return Err(x),
                            };
                            match compile_exprs(cx, d, args, args_start, b) {
                                Ok(_) => {},
                                Err(x) => return Err(x),
                            }
                            b.emit(Instr::MakeEnum {
                                dst,
                                shape_idx: k as u16,
                                variant_idx: v as u16,
                                args_start,
                                n: args.len() as u16,
                            });
                            b.drop_regs(args.len());
                            Ok(())
                        }
                    }
                }
            }
        }
        _ => {
            Ok(())
        }
    }
}

/// A match.
pub open spec fn match_into(cx: UnitView, d: nat, e: Expr, dst: u16, b: BuilderView) -> Built
    decreases d, e, 2nat, 0nat,
{
    match e.kind {
        ExprKind::Match { scrut, arms } => match allocated(b, 1, cx.func.name@, cx.func.span) {
            Err(x) => Err(x),
            Ok((scrut_reg, b)) => match expr_into(cx, d, *scrut, scrut_reg, b) {
                Err(x) => Err(x),
                Ok(b) => match allocated(b, 1, cx.func.name@, cx.func.span) {
                    Err(x) => Err(x),
                    Ok((tag_reg, b)) => {
                        let b = emitted(b, Instr::EnumTag { dst: tag_reg, src: scrut_reg });
                        match arms_code(cx, d, arms@, 0, dst, scrut_reg, tag_reg, seq![], b) {
                            Err(x) => Err(x),
                            Ok((ends, b)) => {
                                let b = emitted(b, Instr::ReturnUnit);
                                let end_pos = b.code.len();
                                let b = patched_all(b, ends, ends.len(), end_pos);
                                let b = freed(b, tag_reg);
                                let b = freed(b, scrut_reg);
                                Ok(b)
                            },
                        }
                    },
                },
            },
        },
        _ => Ok(b),
    }
}

#[verifier::rlimit(100)]
fn compile_match(cx: &Unit, d: usize, e: &Expr, dst: u16, b: &mut Builder) -> (r: Result<(), Error>)
    requires
        sound(old(b)@),
        dst < old(b)@.max,
    ensures
        built(r, old(b)@, final(b)@, match_into(cx@, d as nat, *e, dst, old(b)@)),
    decreases d, e, 2nat, 0nat,
{
    match &e.kind {
        ExprKind::Match { scrut, arms } => {
            let scrut_reg: u16 = match b.take_regs(1, cx.func.name.as_str(), cx.func.span) {
                Ok(x) => x,
                Err(x) => return Err(x),
            };
            match compile_expr_into(cx, d, scrut, scrut_reg, b) {
                Ok(_) => {},
                Err(x) => return Err(x),
            }
            let tag_reg: u16 = match b.take_regs(1, cx.func.name.as_str(), cx.func.span) {
                Ok(x) => x,
                Err(x) => return Err(x),
            };
            b.emit(Instr::EnumTag { dst: tag_reg, src: scrut_reg });
            let ends = match compile_arms(cx, d, arms, 0, dst, scrut_reg, tag_reg, Vec::new(), b) {
                Ok(x) => x,
                Err(x) => return Err(x),
            };
            b.emit(Instr::ReturnUnit);
            let end_pos: usize = b.code.len();
            b.patch_all(&ends, end_pos);
            b.free(tag_reg);
            b.free(scrut_reg);
            Ok(())
        }
        _ => {
            Ok(())
        }
    }
}

/// A conditional as an expression.
pub open spec fn if_expr_into(cx: UnitView, d: nat, e: Expr, dst: u16, b: BuilderView) -> Built
    decreases d, e, 2nat, 0nat,
{
    match e.kind {
        ExprKind::If { cond, then_block, else_branch } => match allocated(b, 1, cx.func.name@, cx.func.span) {
            Err(x) => Err(x),
            Ok((cond_r, b)) => match expr_into(cx, d, *cond, cond_r, b) {
                Err(x) => Err(x),
                Ok(b) => {
                    let jif_pos = b.code.len();
                    let b = emitted(b, Instr::JumpIfFalse { cond: cond_r, offset: 0 });
                    let b = freed(b, cond_r);
                    match block_into(cx, d, then_block, dst, b) {
                        Err(x) => Err(x),
                        Ok(b) => {
                            let jmp_end_pos = b.code.len();
                            let b = emitted(b, Instr::Jump { offset: 0 });
                            let else_pos = b.code.len();
                            let b = patched(b, jif_pos, else_pos);
                            match else_into(cx, d, else_branch, dst, b) {
                                Err(x) => Err(x),
                                Ok(b) => {
                                    let end_pos = b.code.len();
                                    let b = patched(b, jmp_end_pos, end_pos);
                                    Ok(b)
                                },
                            }
                        },
                    }
                },
            },
        },
        _ => Ok(b),
    }
}

#[verifier::rlimit(100)]
fn compile_if_expr(cx: &Unit, d: usize, e: &Expr, dst: u16, b: &mut Builder) -> (r: Result<(), Error>)
    requires
        sound(old(b)@),
        dst < old(b)@.max,
    ensures
        built(r, old(b)@, final(b)@, if_expr_into(cx@, d as nat, *e, dst, old(b)@)),
    decreases d, e, 2nat, 0nat,
{
    match &e.kind {
        ExprKind::If { cond, then_block, else_branch } => {
            let cond_r: u16 = match b.take_regs(1, cx.func.name.as_str(), cx.func.span) {
                Ok(x) => x,
                Err(x) => return Err(x),
            };
            match compile_expr_into(cx, d, cond, cond_r, b) {
                Ok(_) => {},
                Err(x) => return Err(x),
            }
            let jif_pos: usize = b.code.len();
            b.emit(Instr::JumpIfFalse { cond: cond_r, offset: 0 });
            b.free(cond_r);
            match compile_block_into(cx, d, then_block, dst, b) {
                Ok(_) => {},
                Err(x) => return Err(x),
            }
            let jmp_end_pos: usize = b.code.len();
            b.emit(Instr::Jump { offset: 0 });
            let else_pos: usize = b.code.len();
            b.patch(jif_pos, else_pos);
            match compile_else_into(cx, d, else_branch, dst, b) {
                Ok(_) => {},
                Err(x) => return Err(x),
            }
            let end_pos: usize = b.code.len();
            b.patch(jmp_end_pos, end_pos);
            Ok(())
        }
        _ => {
            Ok(())
        }
    }
}

/// An array literal.
pub open spec fn array_into(cx: UnitView, d: nat, e: Expr, dst: u16, b: BuilderView) -> Built
    decreases d, e, 2nat, 0nat,
{
    match e.kind {
        ExprKind::Array(es) => match allocated(b, es@.len() as nat, cx.func.name@, cx.func.span) {
            Err(x) => Err(x),
            Ok((args_start, b)) => match exprs_into(cx, d, es@, 0, args_start, b) {
                Err(x) => Err(x),
                Ok(b) => {
                    let b = emitted(b, Instr::MakeArray {
                        dst, args_start, n: es@.len() as u16
                    });
                    let b = dropped(b, es@.len() as nat);
                    Ok(b)
                },
            },
        },
        _ => Ok(b),
    }
}

#[verifier::rlimit(100)]
fn compile_array(cx: &Unit, d: usize, e: &Expr, dst: u16, b: &mut Builder) -> (r: Result<(), Error>)
    requires
        sound(old(b)@),
        dst < old(b)@.max,
    ensures
        built(r, old(b)@, final(b)@, array_into(cx@, d as nat, *e, dst, old(b)@)),
    decreases d, e, 2nat, 0nat,
{
    match &e.kind {
        ExprKind::Array(es) => {
            let args_start: u16 = match b.take_regs(es.len(), cx.func.name.as_str(), cx.func.span) {
                Ok(x) => x,
                Err(x) => return Err(x),
            };
            match compile_exprs(cx, d, es, args_start, b) {
                Ok(_) => {},
                Err(x) => return Err(x),
            }
            b.emit(Instr::MakeArray { dst, args_start, n: es.len() as u16 });
            b.drop_regs(es.len());
            Ok(())
        }
        _ => {
            Ok(())
        }
    }
}

/// A set literal.
pub open spec fn set_into(cx: UnitView, d: nat, e: Expr, dst: u16, b: BuilderView) -> Built
    decreases d, e, 2nat, 0nat,
{
    match e.kind {
        ExprKind::SetLit(es) => match allocated(b, es@.len() as nat, cx.func.name@, cx.func.span) {
            Err(x) => Err(x),
            Ok((args_start, b)) => match exprs_into(cx, d, es@, 0, args_start, b) {
                Err(x) => Err(x),
                Ok(b) => {
                    let b = emitted(b, Instr::MakeSet {
                        dst, args_start, n: es@.len() as u16
                    });
                    let b = dropped(b, es@.len() as nat);
                    Ok(b)
                },
            },
        },
        _ => Ok(b),
    }
}

#[verifier::rlimit(100)]
fn compile_set(cx: &Unit, d: usize, e: &Expr, dst: u16, b: &mut Builder) -> (r: Result<(), Error>)
    requires
        sound(old(b)@),
        dst < old(b)@.max,
    ensures
        built(r, old(b)@, final(b)@, set_into(cx@, d as nat, *e, dst, old(b)@)),
    decreases d, e, 2nat, 0nat,
{
    match &e.kind {
        ExprKind::SetLit(es) => {
            let args_start: u16 = match b.take_regs(es.len(), cx.func.name.as_str(), cx.func.span) {
                Ok(x) => x,
                Err(x) => return Err(x),
            };
            match compile_exprs(cx, d, es, args_start, b) {
                Ok(_) => {},
                Err(x) => return Err(x),
            }
            b.emit(Instr::MakeSet { dst, args_start, n: es.len() as u16 });
            b.drop_regs(es.len());
            Ok(())
        }
        _ => {
            Ok(())
        }
    }
}

/// A tuple literal.
pub open spec fn tuple_into(cx: UnitView, d: nat, e: Expr, dst: u16, b: BuilderView) -> Built
    decreases d, e, 2nat, 0nat,
{
    match e.kind {
        ExprKind::TupleLit(es) => match allocated(b, es@.len() as nat, cx.func.name@, cx.func.span) {
            Err(x) => Err(x),
            Ok((args_start, b)) => match exprs_into(cx, d, es@, 0, args_start, b) {
                Err(x) => Err(x),
                Ok(b) => {
                    let b = emitted(b, Instr::MakeTuple {
                        dst, args_start, n: es@.len() as u16
                    });
                    let b = dropped(b, es@.len() as nat);
                    Ok(b)
                },
            },
        },
        _ => Ok(b),
    }
}

#[verifier::rlimit(100)]
fn compile_tuple(cx: &Unit, d: usize, e: &Expr, dst: u16, b: &mut Builder) -> (r: Result<(), Error>)
    requires
        sound(old(b)@),
        dst < old(b)@.max,
    ensures
        built(r, old(b)@, final(b)@, tuple_into(cx@, d as nat, *e, dst, old(b)@)),
    decreases d, e, 2nat, 0nat,
{
    match &e.kind {
        ExprKind::TupleLit(es) => {
            let args_start: u16 = match b.take_regs(es.len(), cx.func.name.as_str(), cx.func.span) {
                Ok(x) => x,
                Err(x) => return Err(x),
            };
            match compile_exprs(cx, d, es, args_start, b) {
                Ok(_) => {},
                Err(x) => return Err(x),
            }
            b.emit(Instr::MakeTuple { dst, args_start, n: es.len() as u16 });
            b.drop_regs(es.len());
            Ok(())
        }
        _ => {
            Ok(())
        }
    }
}

/// A binary operation.
pub open spec fn binary_into(cx: UnitView, d: nat, e: Expr, dst: u16, b: BuilderView) -> Built
    decreases d, e, 2nat, 0nat,
{
    match e.kind {
        ExprKind::Binary { op, lhs, rhs } => match expr_into(cx, d, *lhs, dst, b) {
            Err(x) => Err(x),
            Ok(b) => match allocated(b, 1, cx.func.name@, cx.func.span) {
                Err(x) => Err(x),
                Ok((rhs_r, b)) => match expr_into(cx, d, *rhs, rhs_r, b) {
                    Err(x) => Err(x),
                    Ok(b) => {
                        let b = emitted(b, Instr::Bin { op: op, dst, lhs: dst, rhs: rhs_r });
                        let b = freed(b, rhs_r);
                        Ok(b)
                    },
                },
            },
        },
        _ => Ok(b),
    }
}

#[verifier::rlimit(100)]
fn compile_binary(cx: &Unit, d: usize, e: &Expr, dst: u16, b: &mut Builder) -> (r: Result<(), Error>)
    requires
        sound(old(b)@),
        dst < old(b)@.max,
    ensures
        built(r, old(b)@, final(b)@, binary_into(cx@, d as nat, *e, dst, old(b)@)),
    decreases d, e, 2nat, 0nat,
{
    match &e.kind {
        ExprKind::Binary { op, lhs, rhs } => {
            match compile_expr_into(cx, d, lhs, dst, b) {
                Ok(_) => {},
                Err(x) => return Err(x),
            }
            let rhs_r: u16 = match b.take_regs(1, cx.func.name.as_str(), cx.func.span) {
                Ok(x) => x,
                Err(x) => return Err(x),
            };
            match compile_expr_into(cx, d, rhs, rhs_r, b) {
                Ok(_) => {},
                Err(x) => return Err(x),
            }
            b.emit(Instr::Bin { op: *op, dst, lhs: dst, rhs: rhs_r });
            b.free(rhs_r);
            Ok(())
        }
        _ => {
            Ok(())
        }
    }
}

/// A name: a local, a state, or a constant, whose value is compiled in its place
/// with no local in sight.
pub open spec fn ident_into(cx: UnitView, d: nat, e: Expr, name: Seq<char>, dst: u16, b: BuilderView) -> Built
    decreases d, e, 0nat, 0nat,
{
    match local_reg(b.scopes, name) {
        Some(reg) => {
            let b = if reg != dst {
                emitted(b, Instr::Move { dst, src: reg })
            } else {
                b
            };
            Ok(b)
        },
        None => match place(cx.module.states@, name) {
            Some(k) => {
                let b = emitted(b, Instr::KvGet { dst, key_idx: k as u16 });
                Ok(b)
            },
            None => match place(cx.module.consts@, name) {
                Some(k) => if d == 0 {
                    Err(type_error("constant '"@ + name + "' refers to itself"@, e.span))
                } else {
                    match expr_into(cx, (d - 1) as nat, cx.module.consts@[k].value, dst, without_locals(b)) {
                        Err(x) => Err(x),
                        Ok(after) => Ok(with_locals_of(after, b)),
                    }
                },
                None => Err(type_error("undefined variable '"@ + name + "'"@, e.span)),
            },
        },
    }
}

fn compile_ident(cx: &Unit, d: usize, e: &Expr, name: &str, dst: u16, b: &mut Builder) -> (r: Result<(), Error>)
    requires
        sound(old(b)@),
        dst < old(b)@.max,
    ensures
        built(r, old(b)@, final(b)@, ident_into(cx@, d as nat, *e, name@, dst, old(b)@)),
    decreases d, e, 0nat, 0nat,
{
    match b.lookup_local(name) {
        Some(reg) => {
            if reg != dst {
                b.emit(Instr::Move { dst, src: reg });
            }
            Ok(())
        }
        None => {
            match find_last(&cx.module.states, name) {
                Some(k) => {
                    b.emit(Instr::KvGet { dst, key_idx: k as u16 });
                    Ok(())
                }
                None => {
                    match find_last(&cx.module.consts, name) {
                        Some(k) => {
                            if d == 0 {
                                Err(type_err(concat3("constant '", name, "' refers to itself"), e.span))
                            } else {
                                let ghost b0 = b@;
                                let mut saved: Vec<Vec<(String, u16)>> = Vec::new();
                                std::mem::swap(&mut b.scopes, &mut saved);
                                assert(scopes_regs(saved@) == b0.scopes);
                                assert(b@ =~= without_locals(b0));
                                proof {
                                    lemma_locals_aside(b0, b0);
                                }
                                match compile_expr_into(cx, d - 1, &cx.module.consts[k].value, dst, b) {
                                    Ok(_) => {
                                        let ghost after = b@;
                                        b.scopes = saved;
                                        assert(b@ =~= with_locals_of(after, b0));
                                        proof {
                                            lemma_locals_aside(b0, after);
                                        }
                                        Ok(())
                                    },
                                    Err(x) => Err(x),
                                }
                            }
                        }
                        None => {
                            Err(type_err(concat3("undefined variable '", name, "'"), e.span))
                        }
                    }
                }
            }
        }
    }
}

pub open spec fn index_into(cx: UnitView, d: nat, e: Expr, dst: u16, b: BuilderView) -> Built
    decreases d, e, 2nat, 0nat,
{
    match e.kind {
        ExprKind::Index { target, key } => match indexed_state(cx, *target) {
            Some((k, kind)) => match allocated(b, 1, cx.func.name@, cx.func.span) {
                Err(x) => Err(x),
                Ok((key_reg, b)) => match expr_into(cx, d, *key, key_reg, b) {
                    Err(x) => Err(x),
                    Ok(b) => {
                        let b = emitted(b, get_instr(kind, dst, k as u16, key_reg));
                        let b = freed(b, key_reg);
                        Ok(b)
                    },
                },
            },
            None => match allocated(b, 1, cx.func.name@, cx.func.span) {
                Err(x) => Err(x),
                Ok((arr_reg, b)) => match expr_into(cx, d, *target, arr_reg, b) {
                    Err(x) => Err(x),
                    Ok(b) => match allocated(b, 1, cx.func.name@, cx.func.span) {
                        Err(x) => Err(x),
                        Ok((idx_reg, b)) => match expr_into(cx, d, *key, idx_reg, b) {
                            Err(x) => Err(x),
                            Ok(b) => {
                                let b = emitted(b, Instr::ArrayGet { dst, arr: arr_reg, idx: idx_reg });
                                let b = freed(b, idx_reg);
                                let b = freed(b, arr_reg);
                                Ok(b)
                            },
                        },
                    },
                },
            },
        },
        _ => Ok(b),
    }
}

fn compile_index(cx: &Unit, d: usize, e: &Expr, dst: u16, b: &mut Builder) -> (r: Result<(), Error>)
    requires
        sound(old(b)@),
        dst < old(b)@.max,
    ensures
        built(r, old(b)@, final(b)@, index_into(cx@, d as nat, *e, dst, old(b)@)),
    decreases d, e, 2nat, 0nat,
{
    match &e.kind {
        ExprKind::Index { target, key } => {
            match find_indexed_state(cx, target) {
                Some((k, kind)) => {
                    let key_reg: u16 = match b.take_regs(1, cx.func.name.as_str(), cx.func.span) {
                        Ok(x) => x,
                        Err(x) => return Err(x),
                    };
                    match compile_expr_into(cx, d, key, key_reg, b) {
                        Ok(_) => {},
                        Err(x) => return Err(x),
                    }
                    b.emit(make_get(kind, dst, k as u16, key_reg));
                    b.free(key_reg);
                    Ok(())
                }
                None => {
                    let arr_reg: u16 = match b.take_regs(1, cx.func.name.as_str(), cx.func.span) {
                        Ok(x) => x,
                        Err(x) => return Err(x),
                    };
                    match compile_expr_into(cx, d, target, arr_reg, b) {
                        Ok(_) => {},
                        Err(x) => return Err(x),
                    }
                    let idx_reg: u16 = match b.take_regs(1, cx.func.name.as_str(), cx.func.span) {
                        Ok(x) => x,
                        Err(x) => return Err(x),
                    };
                    match compile_expr_into(cx, d, key, idx_reg, b) {
                        Ok(_) => {},
                        Err(x) => return Err(x),
                    }
                    b.emit(Instr::ArrayGet { dst, arr: arr_reg, idx: idx_reg });
                    b.free(idx_reg);
                    b.free(arr_reg);
                    Ok(())
                }
            }
        }
        _ => {
            Ok(())
        }
    }
}

pub open spec fn exprs_into(cx: UnitView, d: nat, s: Seq<Expr>, i: nat, start: u16, b: BuilderView) -> Built
    decreases d, s, 0nat, s.len() - i,
{
    if i >= s.len() {
        Ok(b)
    } else {
        match expr_into(cx, d, s[i as int], (start + i) as u16, b) {
            Err(x) => Err(x),
            Ok(b) => exprs_into(cx, d, s, i + 1, start, b),
        }
    }
}

#[verifier::loop_isolation(false)]
fn compile_exprs(cx: &Unit, d: usize, s: &Vec<Expr>, start: u16, b: &mut Builder) -> (r: Result<(), Error>)
    requires
        sound(old(b)@),
        start + s@.len() <= old(b)@.max,
    ensures
        built(r, old(b)@, final(b)@, exprs_into(cx@, d as nat, s@, 0, start, old(b)@)),
    decreases d, s, 0nat, s@.len(),
{
    let mut i: usize = 0;
    while i < s.len()
        invariant
            i <= s@.len(),
            sound(b@),
            grown(old(b)@, b@),
            exprs_into(cx@, d as nat, s@, 0, start, old(b)@) == exprs_into(cx@, d as nat, s@, i as nat, start, b@),
        decreases s@.len() - i,
    {
    match compile_expr_into(cx, d, &s[i], start + i as u16, b) {
        Ok(_) => {},
        Err(x) => return Err(x),
    }
    i = i + 1;
    }
    Ok(())
}

pub open spec fn pairs_into(cx: UnitView, d: nat, s: Seq<(Expr, Expr)>, i: nat, start: u16, b: BuilderView) -> Built
    decreases d, s, 0nat, s.len() - i,
{
    if i >= s.len() {
        Ok(b)
    } else {
        match expr_into(cx, d, s[i as int].0, (start + 2 * i) as u16, b) {
            Err(x) => Err(x),
            Ok(b) => match expr_into(cx, d, s[i as int].1, (start + 2 * i + 1) as u16, b) {
                Err(x) => Err(x),
                Ok(b) => pairs_into(cx, d, s, i + 1, start, b),
            },
        }
    }
}

#[verifier::loop_isolation(false)]
fn compile_pairs(cx: &Unit, d: usize, s: &Vec<(Expr, Expr)>, start: u16, b: &mut Builder) -> (r: Result<(), Error>)
    requires
        sound(old(b)@),
        start + 2 * s@.len() <= old(b)@.max,
    ensures
        built(r, old(b)@, final(b)@, pairs_into(cx@, d as nat, s@, 0, start, old(b)@)),
    decreases d, s, 0nat, s@.len(),
{
    let mut i: usize = 0;
    while i < s.len()
        invariant
            i <= s@.len(),
            sound(b@),
            grown(old(b)@, b@),
            pairs_into(cx@, d as nat, s@, 0, start, old(b)@) == pairs_into(cx@, d as nat, s@, i as nat, start, b@),
        decreases s@.len() - i,
    {
    match compile_expr_into(cx, d, &s[i].0, start + (2 * i) as u16, b) {
        Ok(_) => {},
        Err(x) => return Err(x),
    }
    match compile_expr_into(cx, d, &s[i].1, start + (2 * i + 1) as u16, b) {
        Ok(_) => {},
        Err(x) => return Err(x),
    }
    i = i + 1;
    }
    Ok(())
}

pub open spec fn fields_into(
    cx: UnitView,
    d: nat,
    decl: Seq<StructField>,
    i: nat,
    given: Seq<(String, Expr)>,
    name: Seq<char>,
    span: Span,
    start: u16,
    b: BuilderView,
) -> Built
    decreases d, given, 0nat, decl.len() - i,
{
    if i >= decl.len() {
        Ok(b)
    } else {
        match first_place(given, decl[i as int].name@) {
            None => Err(type_error("missing field '"@ + decl[i as int].name@ + "' in struct '"@ + name + "'"@, span)),
            Some(k) => if 0 <= k < given.len() {
                match expr_into(cx, d, given[k].1, (start + i) as u16, b) {
                    Err(x) => Err(x),
                    Ok(b) => fields_into(cx, d, decl, i + 1, given, name, span, start, b),
                }
            } else {
                Ok(b)
            },
        }
    }
}

#[verifier::loop_isolation(false)]
fn compile_fields(
    cx: &Unit,
    d: usize,
    decl: &Vec<StructField>,
    given: &Vec<(String, Expr)>,
    name: &str,
    span: Span,
    start: u16,
    b: &mut Builder,
) -> (r: Result<(), Error>)
    requires
        sound(old(b)@),
        start + decl@.len() <= old(b)@.max,
    ensures
        built(r, old(b)@, final(b)@, fields_into(cx@, d as nat, decl@, 0, given@, name@, span, start, old(b)@)),
    decreases d, given, 0nat, decl@.len(),
{
    let mut i: usize = 0;
    while i < decl.len()
        invariant
            i <= decl@.len(),
            sound(b@),
            grown(old(b)@, b@),
            fields_into(cx@, d as nat, decl@, 0, given@, name@, span, start, old(b)@) == fields_into(
                cx@,
                d as nat,
                decl@,
                i as nat,
                given@,
                name@,
                span,
                start,
                b@,
            ),
        decreases decl@.len() - i,
    {
    let k: usize = match find_first(given, decl[i].name.as_str()) {
        Some(k) => k,
        None => return Err(type_err(missing_field(decl[i].name.as_str(), name), span)),
    };
    match compile_expr_into(cx, d, &given[k].1, start + i as u16, b) {
        Ok(_) => {},
        Err(x) => return Err(x),
    }
    i = i + 1;
    }
    Ok(())
}

pub open spec fn arg_into(cx: UnitView, d: nat, s: Seq<Expr>, i: int, dst: u16, b: BuilderView) -> Built
    decreases d, s, 0nat, 0nat,
{
    if 0 <= i < s.len() {
        expr_into(cx, d, s[i], dst, b)
    } else {
        Ok(b)
    }
}

fn compile_arg(cx: &Unit, d: usize, s: &Vec<Expr>, i: usize, dst: u16, b: &mut Builder) -> (r: Result<(), Error>)
    requires
        sound(old(b)@),
        dst < old(b)@.max,
    ensures
        built(r, old(b)@, final(b)@, arg_into(cx@, d as nat, s@, i as int, dst, old(b)@)),
    decreases d, s, 0nat, 0nat,
{
    if i < s.len() {
        compile_expr_into(cx, d, &s[i], dst, b)
    } else {
        Ok(())
    }
}

/// A call of a builtin with an instruction of its own.
pub open spec fn one_arg_into(cx: UnitView, d: nat, s: Seq<Expr>, kind: int, dst: u16, b: BuilderView) -> Built
    decreases d, s, 1nat, 0nat,
{
    match allocated(b, 1, cx.func.name@, cx.func.span) {
        Err(x) => Err(x),
        Ok((r, b)) => match arg_into(cx, d, s, 0, r, b) {
            Err(x) => Err(x),
            Ok(b) => {
                let b = emitted(b, unary_instr(kind, dst, r));
                let b = freed(b, r);
                Ok(b)
            },
        },
    }
}

fn compile_one_arg(cx: &Unit, d: usize, s: &Vec<Expr>, kind: u8, dst: u16, b: &mut Builder) -> (r: Result<(), Error>)
    requires
        sound(old(b)@),
        dst < old(b)@.max,
    ensures
        built(r, old(b)@, final(b)@, one_arg_into(cx@, d as nat, s@, kind as int, dst, old(b)@)),
    decreases d, s, 1nat, 0nat,
{
    let r: u16 = match b.take_regs(1, cx.func.name.as_str(), cx.func.span) {
        Ok(x) => x,
        Err(x) => return Err(x),
    };
    match compile_arg(cx, d, s, 0, r, b) {
        Ok(_) => {},
        Err(x) => return Err(x),
    }
    b.emit(make_unary(kind, dst, r));
    b.free(r);
    Ok(())
}

/// A call of a builtin on a collection state.
pub open spec fn state_call_into(
    cx: UnitView,
    d: nat,
    s: Seq<Expr>,
    name: Seq<char>,
    span: Span,
    dst: u16,
    b: BuilderView,
) -> Built
    decreases d, s, 1nat, 0nat,
{
    match named_state(cx, name, s, span) {
        Err(x) => Err(x),
        Ok(k) => if name == "pvec_len"@ {
            let b = emitted(b, Instr::PVecLen { dst, state_idx: k as u16 });
            Ok(b)
        } else {
            if name == "pvec_push"@ || name == "pbtree_contains"@ || name == "pmap_contains"@ {
                if s.len() < 2 {
                    Err(type_error(name + "() takes two arguments"@, span))
                } else {
                    match allocated(b, 1, cx.func.name@, cx.func.span) {
                        Err(x) => Err(x),
                        Ok((r, b)) => match arg_into(cx, d, s, 1, r, b) {
                            Err(x) => Err(x),
                            Ok(b) => {
                                let b = emitted(b, keyed_instr(name, dst, k as u16, r));
                                let b = freed(b, r);
                                Ok(b)
                            },
                        },
                    }
                }
            } else {
                if name == "pbtree_range"@ {
                    if s.len() < 3 {
                        Err(type_error("pbtree_range() takes three arguments"@, span))
                    } else {
                        match allocated(b, 1, cx.func.name@, cx.func.span) {
                            Err(x) => Err(x),
                            Ok((lo_reg, b)) => match arg_into(cx, d, s, 1, lo_reg, b) {
                                Err(x) => Err(x),
                                Ok(b) => match allocated(b, 1, cx.func.name@, cx.func.span) {
                                    Err(x) => Err(x),
                                    Ok((hi_reg, b)) => match arg_into(cx, d, s, 2, hi_reg, b) {
                                        Err(x) => Err(x),
                                        Ok(b) => {
                                            let b = emitted(
                                                b,
                                                Instr::PBTreeRange {
                                                    dst,
                                                    state_idx: k as u16,
                                                    lo_reg,
                                                    hi_reg,
                                                },
                                            );
                                            let b = freed(b, hi_reg);
                                            let b = freed(b, lo_reg);
                                            Ok(b)
                                        },
                                    },
                                },
                            },
                        }
                    }
                } else {
                    let b = emitted(b, whole_instr(name, dst, k as u16));
                    Ok(b)
                }
            }
        },
    }
}

#[verifier::rlimit(100)]
fn compile_state_call(
    cx: &Unit,
    d: usize,
    s: &Vec<Expr>,
    name: &str,
    span: Span,
    dst: u16,
    b: &mut Builder,
) -> (r: Result<(), Error>)
    requires
        sound(old(b)@),
        dst < old(b)@.max,
    ensures
        built(r, old(b)@, final(b)@, state_call_into(cx@, d as nat, s@, name@, span, dst, old(b)@)),
    decreases d, s, 1nat, 0nat,
{
    match find_named_state(cx, name, s, span) {
        Err(x) => {
            Err(x)
        }
        Ok(k) => {
            if same(name, "pvec_len") {
                b.emit(Instr::PVecLen { dst, state_idx: k as u16 });
                Ok(())
            } else {
                if same(name, "pvec_push") || same(name, "pbtree_contains") || same(name, "pmap_contains") {
                    if s.len() < 2 {
                        Err(type_err(concat2(name, "() takes two arguments"), span))
                    } else {
                        let r: u16 = match b.take_regs(1, cx.func.name.as_str(), cx.func.span) {
                            Ok(x) => x,
                            Err(x) => return Err(x),
                        };
                        match compile_arg(cx, d, s, 1, r, b) {
                            Ok(_) => {},
                            Err(x) => return Err(x),
                        }
                        b.emit(make_keyed(name, dst, k as u16, r));
                        b.free(r);
                        Ok(())
                    }
                } else {
                    if same(name, "pbtree_range") {
                        if s.len() < 3 {
                            Err(type_err(text("pbtree_range() takes three arguments"), span))
                        } else {
                            let lo_reg: u16 = match b.take_regs(1, cx.func.name.as_str(), cx.func.span) {
                                Ok(x) => x,
                                Err(x) => return Err(x),
                            };
                            match compile_arg(cx, d, s, 1, lo_reg, b) {
                                Ok(_) => {},
                                Err(x) => return Err(x),
                            }
                            let hi_reg: u16 = match b.take_regs(1, cx.func.name.as_str(), cx.func.span) {
                                Ok(x) => x,
                                Err(x) => return Err(x),
                            };
                            match compile_arg(cx, d, s, 2, hi_reg, b) {
                                Ok(_) => {},
                                Err(x) => return Err(x),
                            }
                            b.emit(Instr::PBTreeRange { dst, state_idx: k as u16, lo_reg, hi_reg });
                            b.free(hi_reg);
                            b.free(lo_reg);
                            Ok(())
                        }
                    } else {
                        b.emit(make_whole(name, dst, k as u16));
                        Ok(())
                    }
                }
            }
        }
    }
}

/// A call of a function of another module, of the host, or of this module.
pub open spec fn plain_call_into(cx: UnitView, d: nat, e: Expr, dst: u16, b: BuilderView) -> Built
    decreases d, e, 0nat, 0nat,
{
    match e.kind {
        ExprKind::Call { module, name, args } => match allocated(b, args@.len() as nat, cx.func.name@, cx.func.span) {
            Err(x) => Err(x),
            Ok((args_start, b)) => match exprs_into(cx, d, args@, 0, args_start, b) {
                Err(x) => Err(x),
                Ok(b) => match module {
                    Some(mod_name) => if name@ == "bind"@ && knows_interface(cx, mod_name@) && args@.len() == 1 {
                        let iface_name_idx = const_index(b, ConstView::Str(mod_name@));
                        let b = with_const(b, ConstView::Str(mod_name@));
                        let b = emitted(
                            b,
                            Instr::MakeInterface { dst, iface_name_idx, target_reg: args_start },
                        );
                        let b = dropped(b, args@.len() as nat);
                        Ok(b)
                    } else {
                        let module_name_idx = const_index(b, ConstView::Str(mod_name@));
                        let b = with_const(b, ConstView::Str(mod_name@));
                        let fn_name_idx = const_index(b, ConstView::Str(name@));
                        let b = with_const(b, ConstView::Str(name@));
                        let flags = extern_flags(cx.externs, mod_name@, name@);
                        let b = emitted(b, Instr::CallExternal {
                            dst,
                            module_name_idx,
                            fn_name_idx,
                            args_start,
                            n_args: args@.len() as u8,
                            is_view: flags.0,
                            is_pure: flags.1
                        });
                        let b = dropped(b, args@.len() as nat);
                        Ok(b)
                    },
                    None => match place(cx.module.imports@, name@) {
                        Some(k) => {
                            let b = emitted(b, Instr::CallHost {
                                dst, import_idx: k as u16, args_start, n_args: args@.len() as u8
                            });
                            let b = dropped(b, args@.len() as nat);
                            Ok(b)
                        },
                        None => match place(cx.module.functions@, name@) {
                            Some(k) => {
                                let b = emitted(b, Instr::Call {
                                    dst, fn_idx: k as u16, args_start, n_args: args@.len() as u8
                                });
                                let b = dropped(b, args@.len() as nat);
                                Ok(b)
                            },
                            None => Err(type_error("unknown function '"@ + name@ + "'"@, e.span)),
                        },
                    },
                },
            },
        },
        _ => Ok(b),
    }
}

#[verifier::rlimit(100)]
fn compile_plain_call(cx: &Unit, d: usize, e: &Expr, dst: u16, b: &mut Builder) -> (r: Result<(), Error>)
    requires
        sound(old(b)@),
        dst < old(b)@.max,
    ensures
        built(r, old(b)@, final(b)@, plain_call_into(cx@, d as nat, *e, dst, old(b)@)),
    decreases d, e, 0nat, 0nat,
{
    match &e.kind {
        ExprKind::Call { module, name, args } => {
            let args_start: u16 = match b.take_regs(args.len(), cx.func.name.as_str(), cx.func.span) {
                Ok(x) => x,
                Err(x) => return Err(x),
            };
            match compile_exprs(cx, d, args, args_start, b) {
                Ok(_) => {},
                Err(x) => return Err(x),
            }
            match module {
                Some(mod_name) => {
                    if same(name.as_str(), "bind") && has_interface(cx, mod_name.as_str()) && args.len() == 1 {
                        let iface_name_idx: u16 = b.const_idx(Const::Str(mod_name.clone()));
                        b.emit(Instr::MakeInterface { dst, iface_name_idx, target_reg: args_start });
                        b.drop_regs(args.len());
                        Ok(())
                    } else {
                        let module_name_idx: u16 = b.const_idx(Const::Str(mod_name.clone()));
                        let fn_name_idx: u16 = b.const_idx(Const::Str(name.clone()));
                        let flags = find_extern(cx.externs, mod_name.as_str(), name.as_str());
                        b.emit(Instr::CallExternal {
                            dst,
                            module_name_idx,
                            fn_name_idx,
                            args_start,
                            n_args: args.len() as u8,
                            is_view: flags.0,
                            is_pure: flags.1,
                        });
                        b.drop_regs(args.len());
                        Ok(())
                    }
                }
                None => {
                    match find_last(&cx.module.imports, name.as_str()) {
                        Some(k) => {
                            b.emit(Instr::CallHost {
                                dst,
                                import_idx: k as u16,
                                args_start,
                                n_args: args.len() as u8,
                            });
                            b.drop_regs(args.len());
                            Ok(())
                        }
                        None => {
                            match find_last(&cx.module.functions, name.as_str()) {
                                Some(k) => {
                                    b.emit(Instr::Call {
                                        dst,
                                        fn_idx: k as u16,
                                        args_start,
                                        n_args: args.len() as u8,
                                    });
                                    b.drop_regs(args.len());
                                    Ok(())
                                }
                                None => {
                                    Err(type_err(concat3("unknown function '", name.as_str(), "'"), e.span))
                                }
                            }
                        }
                    }
                }
            }
        }
        _ => {
            Ok(())
        }
    }
}

/// The arms of a match from the `i`-th on, and the jumps to its end.
pub open spec fn arms_code(
    cx: UnitView,
    d: nat,
    s: Seq<MatchArm>,
    i: nat,
    dst: u16,
    scrut_reg: u16,
    tag_reg: u16,
    ends: Seq<usize>,
    b: BuilderView,
) -> Result<(Seq<usize>, BuilderView), ErrorView>
    decreases d, s, 0nat, s.len() - i,
{
    if i >= s.len() {
        Ok((ends, b))
    } else {
        match s[i as int].pattern {
            MatchPattern::Wildcard => match match_body(cx, d, s[i as int].body, dst, scrut_reg, seq![], b) {
                Err(x) => Err(x),
                Ok(b) => {
                    let pos = b.code.len();
                    let b = emitted(b, Instr::Jump { offset: 0 });
                    let ends = ends.push(pos as usize);
                    Ok((ends, b))
                },
            },
            MatchPattern::EnumVariant { enum_name, variant, bindings } => match variant_at(cx, s, variant@) {
                None => Err(type_error("unknown variant '"@ + variant@ + "'"@, s[i as int].span)),
                Some(v) => match allocated(b, 1, cx.func.name@, cx.func.span) {
                    Err(x) => Err(x),
                    Ok((const_reg, b)) => {
                        let cidx = const_index(b, ConstView::Int(v));
                        let b = with_const(b, ConstView::Int(v));
                        let b = emitted(b, Instr::LoadConst { dst: const_reg, idx: cidx });
                        match allocated(b, 1, cx.func.name@, cx.func.span) {
                            Err(x) => Err(x),
                            Ok((check, b)) => {
                                let b = emitted(
                                    b,
                                    Instr::Bin {
                                        op: BinOp::Eq,
                                        dst: check,
                                        lhs: tag_reg,
                                        rhs: const_reg,
                                    },
                                );
                                let b = freed(b, const_reg);
                                let skip_pos = b.code.len();
                                let b = emitted(b, Instr::JumpIfFalse {
                                    cond: check,
                                    offset: 0,
                                });
                                let b = freed(b, check);
                                match match_body(cx, d, s[i as int].body, dst, scrut_reg, bindings@, b) {
                                    Err(x) => Err(x),
                                    Ok(b) => {
                                        let jmp_pos = b.code.len();
                                        let b = emitted(b, Instr::Jump { offset: 0 });
                                        let here = b.code.len();
                                        let b = patched(b, skip_pos, here);
                                        arms_code(
                                            cx,
                                            d,
                                            s,
                                            i + 1,
                                            dst,
                                            scrut_reg,
                                            tag_reg,
                                            ends.push(jmp_pos as usize),
                                            b,
                                        )
                                    },
                                }
                            },
                        }
                    },
                },
            },
        }
    }
}

#[verifier::rlimit(100)]
fn compile_arms(
    cx: &Unit,
    d: usize,
    s: &Vec<MatchArm>,
    i: usize,
    dst: u16,
    scrut_reg: u16,
    tag_reg: u16,
    ends: Vec<usize>,
    b: &mut Builder,
) -> (r: Result<Vec<usize>, Error>)
    requires
        sound(old(b)@),
        dst < old(b)@.max,
        scrut_reg < old(b)@.max,
        tag_reg < old(b)@.max,
    ensures
        match arms_code(cx@, d as nat, s@, i as nat, dst, scrut_reg, tag_reg, ends@, old(b)@) {
            Ok((w, w2)) => final(b)@ == w2 && sound(w2) && grown(old(b)@, w2) && match r {
                Ok(v) => v@ == w,
                Err(_) => false,
            },
            Err(x) => match r {
                Ok(_) => false,
                Err(e) => e@ == x,
            },
        },
    decreases d, s, 0nat, s@.len() - i,
{
    if i >= s.len() {
        Ok(ends)
    } else {
        match &s[i].pattern {
            MatchPattern::Wildcard => {
                match compile_match_body(cx, d, &s[i].body, dst, scrut_reg, &Vec::new(), b) {
                    Ok(_) => {},
                    Err(x) => return Err(x),
                }
                let pos: usize = b.code.len();
                b.emit(Instr::Jump { offset: 0 });
                let mut ends = ends;
                ends.push(pos);
                Ok(ends)
            }
            MatchPattern::EnumVariant { enum_name: _, variant, bindings } => {
                match find_variant(cx, s, variant.as_str()) {
                    None => {
                        Err(type_err(concat3("unknown variant '", variant.as_str(), "'"), s[i].span))
                    }
                    Some(v) => {
                        let const_reg: u16 = match b.take_regs(1, cx.func.name.as_str(), cx.func.span) {
                            Ok(x) => x,
                            Err(x) => return Err(x),
                        };
                        let cidx: u16 = b.const_idx(Const::Int(BigInt::from_u128(v as u128)));
                        b.emit(Instr::LoadConst { dst: const_reg, idx: cidx });
                        let check: u16 = match b.take_regs(1, cx.func.name.as_str(), cx.func.span) {
                            Ok(x) => x,
                            Err(x) => return Err(x),
                        };
                        b.emit(Instr::Bin { op: BinOp::Eq, dst: check, lhs: tag_reg, rhs: const_reg });
                        b.free(const_reg);
                        let skip_pos: usize = b.code.len();
                        b.emit(Instr::JumpIfFalse { cond: check, offset: 0 });
                        b.free(check);
                        match compile_match_body(cx, d, &s[i].body, dst, scrut_reg, bindings, b) {
                            Ok(_) => {},
                            Err(x) => return Err(x),
                        }
                        let jmp_pos: usize = b.code.len();
                        b.emit(Instr::Jump { offset: 0 });
                        let here: usize = b.code.len();
                        b.patch(skip_pos, here);
                        let mut ends = ends;
                        ends.push(jmp_pos);
                        compile_arms(cx, d, s, i + 1, dst, scrut_reg, tag_reg, ends, b)
                    }
                }
            }
        }
    }
}

pub open spec fn match_body(
    cx: UnitView,
    d: nat,
    body: Expr,
    dst: u16,
    scrut_reg: u16,
    bindings: Seq<String>,
    b: BuilderView,
) -> Built
    decreases d, body, 4nat, 0nat,
{
    let b = scope_opened(b);
    let first = b.next;
    match payload_code(cx, bindings, 0, scrut_reg, b) {
        Err(x) => Err(x),
        Ok(b) => match expr_into(cx, d, body, dst, b) {
            Err(x) => Err(x),
            Ok(b) => {
                let b = scope_closed(b);
                let b = freed_down(b, first, bindings.len());
                Ok(b)
            },
        },
    }
}

fn compile_match_body(
    cx: &Unit,
    d: usize,
    body: &Expr,
    dst: u16,
    scrut_reg: u16,
    bindings: &Vec<String>,
    b: &mut Builder,
) -> (r: Result<(), Error>)
    requires
        sound(old(b)@),
        dst < old(b)@.max,
        scrut_reg < old(b)@.max,
    ensures
        built(r, old(b)@, final(b)@, match_body(cx@, d as nat, *body, dst, scrut_reg, bindings@, old(b)@)),
    decreases d, body, 4nat, 0nat,
{
    b.open_scope();
    let first: u16 = b.next_reg;
    match bind_payload(cx, bindings, scrut_reg, b) {
        Ok(_) => {},
        Err(x) => return Err(x),
    }
    match compile_expr_into(cx, d, body, dst, b) {
        Ok(_) => {},
        Err(x) => return Err(x),
    }
    b.close_scope();
    free_down(b, first, bindings.len());
    Ok(())
}

pub open spec fn stmts_code(cx: UnitView, d: nat, s: Seq<Stmt>, i: nat, b: BuilderView) -> Built
    decreases d, s, 0nat, s.len() - i,
{
    if i >= s.len() {
        Ok(b)
    } else {
        match stmt_code(cx, d, s[i as int], b) {
            Err(x) => Err(x),
            Ok(b) => stmts_code(cx, d, s, i + 1, b),
        }
    }
}

#[verifier::loop_isolation(false)]
fn compile_stmts(cx: &Unit, d: usize, s: &Vec<Stmt>, b: &mut Builder) -> (r: Result<(), Error>)
    requires
        sound(old(b)@),
        old(b)@.scopes.len() > 0,
    ensures
        built(r, old(b)@, final(b)@, stmts_code(cx@, d as nat, s@, 0, old(b)@)),
    decreases d, s, 0nat, s@.len(),
{
    let mut i: usize = 0;
    while i < s.len()
        invariant
            i <= s@.len(),
            sound(b@),
            grown(old(b)@, b@),
            stmts_code(cx@, d as nat, s@, 0, old(b)@) == stmts_code(cx@, d as nat, s@, i as nat, b@),
        decreases s@.len() - i,
    {
    match compile_stmt(cx, d, &s[i], b) {
        Ok(_) => {},
        Err(x) => return Err(x),
    }
    i = i + 1;
    }
    Ok(())
}

/// A block as a statement.
pub open spec fn block_code(cx: UnitView, d: nat, blk: Block, b: BuilderView) -> Built
    decreases d, blk, 0nat, 0nat,
{
    let b = scope_opened(b);
    let saved = b.next;
    match stmts_code(cx, d, blk.stmts@, 0, b) {
        Err(x) => Err(x),
        Ok(b) => match blk.tail {
            Some(t) => match allocated(b, 1, cx.func.name@, cx.func.span) {
                Err(x) => Err(x),
                Ok((r, b)) => match expr_into(cx, d, *t, r, b) {
                    Err(x) => Err(x),
                    Ok(b) => {
                        let b = freed(b, r);
                        let b = scope_closed(b);
                        let b = restored(b, saved);
                        Ok(b)
                    },
                },
            },
            None => {
                let b = scope_closed(b);
                let b = restored(b, saved);
                Ok(b)
            },
        },
    }
}

fn compile_block(cx: &Unit, d: usize, blk: &Block, b: &mut Builder) -> (r: Result<(), Error>)
    requires
        sound(old(b)@),
    ensures
        built(r, old(b)@, final(b)@, block_code(cx@, d as nat, *blk, old(b)@)),
    decreases d, blk, 0nat, 0nat,
{
    b.open_scope();
    let saved: u16 = b.next_reg;
    match compile_stmts(cx, d, &blk.stmts, b) {
        Ok(_) => {},
        Err(x) => return Err(x),
    }
    match &blk.tail {
        Some(t) => {
            let r: u16 = match b.take_regs(1, cx.func.name.as_str(), cx.func.span) {
                Ok(x) => x,
                Err(x) => return Err(x),
            };
            match compile_expr_into(cx, d, t, r, b) {
                Ok(_) => {},
                Err(x) => return Err(x),
            }
            b.free(r);
            b.close_scope();
            b.restore(saved);
            Ok(())
        }
        None => {
            b.close_scope();
            b.restore(saved);
            Ok(())
        }
    }
}

/// The body of a function, which returns its tail.
pub open spec fn body_code(cx: UnitView, d: nat, blk: Block, b: BuilderView) -> Built
    decreases d, blk, 0nat, 0nat,
{
    let b = scope_opened(b);
    let saved = b.next;
    match stmts_code(cx, d, blk.stmts@, 0, b) {
        Err(x) => Err(x),
        Ok(b) => match blk.tail {
            Some(t) => match allocated(b, 1, cx.func.name@, cx.func.span) {
                Err(x) => Err(x),
                Ok((r, b)) => match expr_into(cx, d, *t, r, b) {
                    Err(x) => Err(x),
                    Ok(b) => {
                        let b = emitted(b, Instr::Return { src: r });
                        let b = freed(b, r);
                        let b = scope_closed(b);
                        let b = restored(b, saved);
                        Ok(b)
                    },
                },
            },
            None => {
                let b = scope_closed(b);
                let b = restored(b, saved);
                Ok(b)
            },
        },
    }
}

pub(crate) fn compile_fn_body(cx: &Unit, d: usize, blk: &Block, b: &mut Builder) -> (r: Result<(), Error>)
    requires
        sound(old(b)@),
    ensures
        built(r, old(b)@, final(b)@, body_code(cx@, d as nat, *blk, old(b)@)),
    decreases d, blk, 0nat, 0nat,
{
    b.open_scope();
    let saved: u16 = b.next_reg;
    match compile_stmts(cx, d, &blk.stmts, b) {
        Ok(_) => {},
        Err(x) => return Err(x),
    }
    match &blk.tail {
        Some(t) => {
            let r: u16 = match b.take_regs(1, cx.func.name.as_str(), cx.func.span) {
                Ok(x) => x,
                Err(x) => return Err(x),
            };
            match compile_expr_into(cx, d, t, r, b) {
                Ok(_) => {},
                Err(x) => return Err(x),
            }
            b.emit(Instr::Return { src: r });
            b.free(r);
            b.close_scope();
            b.restore(saved);
            Ok(())
        }
        None => {
            b.close_scope();
            b.restore(saved);
            Ok(())
        }
    }
}

/// A block as an expression.
pub open spec fn block_into(cx: UnitView, d: nat, blk: Block, dst: u16, b: BuilderView) -> Built
    decreases d, blk, 0nat, 0nat,
{
    let b = scope_opened(b);
    let saved = b.next;
    match stmts_code(cx, d, blk.stmts@, 0, b) {
        Err(x) => Err(x),
        Ok(b) => match blk.tail {
            Some(t) => match expr_into(cx, d, *t, dst, b) {
                Err(x) => Err(x),
                Ok(b) => {
                    let b = scope_closed(b);
                    let b = restored(b, saved);
                    Ok(b)
                },
            },
            None => {
                let idx = const_index(b, ConstView::Bool(false));
                let b = with_const(b, ConstView::Bool(false));
                let b = emitted(b, Instr::LoadConst { dst, idx });
                let b = scope_closed(b);
                let b = restored(b, saved);
                Ok(b)
            },
        },
    }
}

fn compile_block_into(cx: &Unit, d: usize, blk: &Block, dst: u16, b: &mut Builder) -> (r: Result<(), Error>)
    requires
        sound(old(b)@),
        dst < old(b)@.max,
    ensures
        built(r, old(b)@, final(b)@, block_into(cx@, d as nat, *blk, dst, old(b)@)),
    decreases d, blk, 0nat, 0nat,
{
    b.open_scope();
    let saved: u16 = b.next_reg;
    match compile_stmts(cx, d, &blk.stmts, b) {
        Ok(_) => {},
        Err(x) => return Err(x),
    }
    match &blk.tail {
        Some(t) => {
            match compile_expr_into(cx, d, t, dst, b) {
                Ok(_) => {},
                Err(x) => return Err(x),
            }
            b.close_scope();
            b.restore(saved);
            Ok(())
        }
        None => {
            let idx: u16 = b.const_idx(Const::Bool(false));
            b.emit(Instr::LoadConst { dst, idx });
            b.close_scope();
            b.restore(saved);
            Ok(())
        }
    }
}

/// A statement that gives a name or a place a value.
pub open spec fn binding_code(cx: UnitView, d: nat, s: Stmt, b: BuilderView) -> Built
    decreases d, s, 1nat, 0nat,
{
    match s {
        Stmt::Let { name, ty, value, span } => match allocated(b, 1, cx.func.name@, cx.func.span) {
            Err(x) => Err(x),
            Ok((r, b)) => match expr_into(cx, d, value, r, b) {
                Err(x) => Err(x),
                Ok(b) => {
                    let b = bound(b, name@, r);
                    Ok(b)
                },
            },
        },
        Stmt::Assign { target, value, span } => match allocated(b, 1, cx.func.name@, cx.func.span) {
            Err(x) => Err(x),
            Ok((val_reg, b)) => match expr_into(cx, d, value, val_reg, b) {
                Err(x) => Err(x),
                Ok(b) => match assign_code(cx, d, target, val_reg, b) {
                    Err(x) => Err(x),
                    Ok(b) => {
                        let b = freed(b, val_reg);
                        Ok(b)
                    },
                },
            },
        },
        Stmt::LetTuple { names, value, span } => match allocated(b, 1, cx.func.name@, cx.func.span) {
            Err(x) => Err(x),
            Ok((tuple_reg, b)) => match expr_into(cx, d, value, tuple_reg, b) {
                Err(x) => Err(x),
                Ok(b) => tuple_code(cx, names@, 0, tuple_reg, b),
            },
        },
        _ => Ok(b),
    }
}

#[verifier::rlimit(100)]
#[verifier::spinoff_prover]
fn compile_binding(cx: &Unit, d: usize, s: &Stmt, b: &mut Builder) -> (r: Result<(), Error>)
    requires
        sound(old(b)@),
        old(b)@.scopes.len() > 0,
    ensures
        built(r, old(b)@, final(b)@, binding_code(cx@, d as nat, *s, old(b)@)),
    decreases d, s, 1nat, 0nat,
{
    match s {
        Stmt::Let { name, ty: _, value, span: _ } => {
            let r: u16 = match b.take_regs(1, cx.func.name.as_str(), cx.func.span) {
                Ok(x) => x,
                Err(x) => return Err(x),
            };
            match compile_expr_into(cx, d, value, r, b) {
                Ok(_) => {},
                Err(x) => return Err(x),
            }
            b.bind(name.as_str(), r);
            Ok(())
        }
        Stmt::Assign { target, value, span: _ } => {
            let val_reg: u16 = match b.take_regs(1, cx.func.name.as_str(), cx.func.span) {
                Ok(x) => x,
                Err(x) => return Err(x),
            };
            match compile_expr_into(cx, d, value, val_reg, b) {
                Ok(_) => {},
                Err(x) => return Err(x),
            }
            match assign_path(cx, d, target, val_reg, b) {
                Ok(_) => {},
                Err(x) => return Err(x),
            }
            b.free(val_reg);
            Ok(())
        }
        Stmt::LetTuple { names, value, span: _ } => {
            let tuple_reg: u16 = match b.take_regs(1, cx.func.name.as_str(), cx.func.span) {
                Ok(x) => x,
                Err(x) => return Err(x),
            };
            match compile_expr_into(cx, d, value, tuple_reg, b) {
                Ok(_) => {},
                Err(x) => return Err(x),
            }
            bind_tuple(cx, names, tuple_reg, b)
        }
        _ => {
            Ok(())
        }
    }
}

/// A return.
pub open spec fn return_code(cx: UnitView, d: nat, s: Stmt, b: BuilderView) -> Built
    decreases d, s, 1nat, 0nat,
{
    match s {
        Stmt::Return { value, span } => match value {
            Some(x) => match allocated(b, 1, cx.func.name@, cx.func.span) {
                Err(x) => Err(x),
                Ok((r, b)) => match expr_into(cx, d, x, r, b) {
                    Err(x) => Err(x),
                    Ok(b) => {
                        let b = emitted(b, Instr::Return { src: r });
                        let b = freed(b, r);
                        Ok(b)
                    },
                },
            },
            None => {
                let b = emitted(b, Instr::ReturnUnit);
                Ok(b)
            },
        },
        _ => Ok(b),
    }
}

#[verifier::rlimit(100)]
#[verifier::spinoff_prover]
fn compile_return(cx: &Unit, d: usize, s: &Stmt, b: &mut Builder) -> (r: Result<(), Error>)
    requires
        sound(old(b)@),
        old(b)@.scopes.len() > 0,
    ensures
        built(r, old(b)@, final(b)@, return_code(cx@, d as nat, *s, old(b)@)),
    decreases d, s, 1nat, 0nat,
{
    match s {
        Stmt::Return { value, span: _ } => {
            match value {
                Some(x) => {
                    let r: u16 = match b.take_regs(1, cx.func.name.as_str(), cx.func.span) {
                        Ok(x) => x,
                        Err(x) => return Err(x),
                    };
                    match compile_expr_into(cx, d, x, r, b) {
                        Ok(_) => {},
                        Err(x) => return Err(x),
                    }
                    b.emit(Instr::Return { src: r });
                    b.free(r);
                    Ok(())
                }
                None => {
                    b.emit(Instr::ReturnUnit);
                    Ok(())
                }
            }
        }
        _ => {
            Ok(())
        }
    }
}

/// An expression whose value is dropped.
pub open spec fn dropped_code(cx: UnitView, d: nat, e: Expr, b: BuilderView) -> Built
    decreases d, e, 4nat, 0nat,
{
    match allocated(b, 1, cx.func.name@, cx.func.span) {
        Err(x) => Err(x),
        Ok((r, b)) => match expr_into(cx, d, e, r, b) {
            Err(x) => Err(x),
            Ok(b) => Ok(freed(b, r)),
        },
    }
}

#[verifier::rlimit(100)]
#[verifier::spinoff_prover]
fn compile_dropped(cx: &Unit, d: usize, e: &Expr, b: &mut Builder) -> (r: Result<(), Error>)
    requires
        sound(old(b)@),
    ensures
        built(r, old(b)@, final(b)@, dropped_code(cx@, d as nat, *e, old(b)@)),
    decreases d, e, 4nat, 0nat,
{
    let r: u16 = match b.take_regs(1, cx.func.name.as_str(), cx.func.span) {
        Ok(x) => x,
        Err(x) => return Err(x),
    };
    match compile_expr_into(cx, d, e, r, b) {
        Ok(_) => {},
        Err(x) => return Err(x),
    }
    b.free(r);
    Ok(())
}

/// An event.
pub open spec fn event_code(cx: UnitView, d: nat, e: Expr, b: BuilderView) -> Built
    decreases d, e, 4nat, 0nat,
{
    match allocated(b, 1, cx.func.name@, cx.func.span) {
        Err(x) => Err(x),
        Ok((r, b)) => match expr_into(cx, d, e, r, b) {
            Err(x) => Err(x),
            Ok(b) => Ok(freed(emitted(b, Instr::Emit { value: r }), r)),
        },
    }
}

#[verifier::rlimit(100)]
#[verifier::spinoff_prover]
fn compile_event(cx: &Unit, d: usize, e: &Expr, b: &mut Builder) -> (r: Result<(), Error>)
    requires
        sound(old(b)@),
    ensures
        built(r, old(b)@, final(b)@, event_code(cx@, d as nat, *e, old(b)@)),
    decreases d, e, 4nat, 0nat,
{
    let r: u16 = match b.take_regs(1, cx.func.name.as_str(), cx.func.span) {
        Ok(x) => x,
        Err(x) => return Err(x),
    };
    match compile_expr_into(cx, d, e, r, b) {
        Ok(_) => {},
        Err(x) => return Err(x),
    }
    b.emit(Instr::Emit { value: r });
    b.free(r);
    Ok(())
}

/// The code of a statement.
pub open spec fn stmt_code(cx: UnitView, d: nat, s: Stmt, b: BuilderView) -> Built
    decreases d, s, 2nat, 0nat,
{
    match s {
        Stmt::Let { name, ty, value, span } => binding_code(cx, d, s, b),
        Stmt::Assign { target, value, span } => binding_code(cx, d, s, b),
        Stmt::LetTuple { names, value, span } => binding_code(cx, d, s, b),
        Stmt::Return { value, span } => return_code(cx, d, s, b),
        Stmt::Expr(x) => dropped_code(cx, d, x, b),
        Stmt::Emit { value, span } => event_code(cx, d, *value, b),
        Stmt::If(i) => if_code(cx, d, i, b),
        Stmt::While { cond, body, span } => while_code(cx, d, s, b),
        Stmt::For { var, iter, body, span } => for_code(cx, d, s, b),
        Stmt::ForRange { var, start, end, inclusive, body, span } => range_code(cx, d, s, b),
        Stmt::Break(span) => if b.loops.len() == 0 {
            Err(type_error("'break' outside of a loop"@, span))
        } else {
            let b = with_break(b);
            Ok(b)
        },
        Stmt::Continue(span) => if b.loops.len() == 0 {
            Err(type_error("'continue' outside of a loop"@, span))
        } else {
            let b = with_continue(b);
            Ok(b)
        },
        Stmt::Placeholder(span) => Err(type_error("`_;` left in a function body"@, span)),
        Stmt::Parallel { stmts, span } => Err(type_error("parallel blocks cannot be compiled"@, span)),
        Stmt::ParallelForTo { id_var, source, output, body, span } => Err(type_error("parallel blocks cannot be compiled"@, span)),
        Stmt::Delete { target, span } => delete_code(cx, d, target, span, b),
    }
}

#[verifier::rlimit(100)]
#[verifier::spinoff_prover]
fn compile_stmt(cx: &Unit, d: usize, s: &Stmt, b: &mut Builder) -> (r: Result<(), Error>)
    requires
        sound(old(b)@),
        old(b)@.scopes.len() > 0,
    ensures
        built(r, old(b)@, final(b)@, stmt_code(cx@, d as nat, *s, old(b)@)),
    decreases d, s, 2nat, 0nat,
{
    match s {
        Stmt::Let { name: _, ty: _, value: _, span: _ } => {
            compile_binding(cx, d, s, b)
        }
        Stmt::Assign { target: _, value: _, span: _ } => {
            compile_binding(cx, d, s, b)
        }
        Stmt::LetTuple { names: _, value: _, span: _ } => {
            compile_binding(cx, d, s, b)
        }
        Stmt::Return { value: _, span: _ } => {
            compile_return(cx, d, s, b)
        }
        Stmt::Expr(x) => {
            compile_dropped(cx, d, x, b)
        }
        Stmt::Emit { value, span: _ } => {
            compile_event(cx, d, value, b)
        }
        Stmt::If(i) => {
            compile_if(cx, d, i, b)
        }
        Stmt::While { cond: _, body: _, span: _ } => {
            compile_while(cx, d, s, b)
        }
        Stmt::For { var: _, iter: _, body: _, span: _ } => {
            compile_for(cx, d, s, b)
        }
        Stmt::ForRange { var: _, start: _, end: _, inclusive: _, body: _, span: _ } => {
            compile_for_range(cx, d, s, b)
        }
        Stmt::Break(span) => {
            if b.loop_stack.len() == 0 {
                Err(type_err(text("'break' outside of a loop"), *span))
            } else {
                b.push_break();
                Ok(())
            }
        }
        Stmt::Continue(span) => {
            if b.loop_stack.len() == 0 {
                Err(type_err(text("'continue' outside of a loop"), *span))
            } else {
                b.push_continue();
                Ok(())
            }
        }
        Stmt::Placeholder(span) => {
            Err(type_err(text("`_;` left in a function body"), *span))
        }
        Stmt::Parallel { stmts: _, span } => {
            Err(type_err(text("parallel blocks cannot be compiled"), *span))
        }
        Stmt::ParallelForTo { id_var: _, source: _, output: _, body: _, span } => {
            Err(type_err(text("parallel blocks cannot be compiled"), *span))
        }
        Stmt::Delete { target, span } => {
            compile_delete(cx, d, target, *span, b)
        }
    }
}

/// A conditional as a statement.
pub open spec fn if_code(cx: UnitView, d: nat, i: IfStmt, b: BuilderView) -> Built
    decreases d, i, 0nat, 0nat,
{
    match allocated(b, 1, cx.func.name@, cx.func.span) {
        Err(x) => Err(x),
        Ok((cond_r, b)) => match expr_into(cx, d, i.cond, cond_r, b) {
            Err(x) => Err(x),
            Ok(b) => {
                let jif_pos = b.code.len();
                let b = emitted(b, Instr::JumpIfFalse { cond: cond_r, offset: 0 });
                let b = freed(b, cond_r);
                match block_code(cx, d, i.then_block, b) {
                    Err(x) => Err(x),
                    Ok(b) => {
                        let jmp_end_pos = b.code.len();
                        let b = emitted(b, Instr::Jump { offset: 0 });
                        let else_pos = b.code.len();
                        let b = patched(b, jif_pos, else_pos);
                        match else_code(cx, d, i.else_branch, b) {
                            Err(x) => Err(x),
                            Ok(b) => {
                                let end_pos = b.code.len();
                                let b = patched(b, jmp_end_pos, end_pos);
                                Ok(b)
                            },
                        }
                    },
                }
            },
        },
    }
}

fn compile_if(cx: &Unit, d: usize, i: &IfStmt, b: &mut Builder) -> (r: Result<(), Error>)
    requires
        sound(old(b)@),
    ensures
        built(r, old(b)@, final(b)@, if_code(cx@, d as nat, *i, old(b)@)),
    decreases d, i, 0nat, 0nat,
{
    let cond_r: u16 = match b.take_regs(1, cx.func.name.as_str(), cx.func.span) {
        Ok(x) => x,
        Err(x) => return Err(x),
    };
    match compile_expr_into(cx, d, &i.cond, cond_r, b) {
        Ok(_) => {},
        Err(x) => return Err(x),
    }
    let jif_pos: usize = b.code.len();
    b.emit(Instr::JumpIfFalse { cond: cond_r, offset: 0 });
    b.free(cond_r);
    match compile_block(cx, d, &i.then_block, b) {
        Ok(_) => {},
        Err(x) => return Err(x),
    }
    let jmp_end_pos: usize = b.code.len();
    b.emit(Instr::Jump { offset: 0 });
    let else_pos: usize = b.code.len();
    b.patch(jif_pos, else_pos);
    match compile_else(cx, d, &i.else_branch, b) {
        Ok(_) => {},
        Err(x) => return Err(x),
    }
    let end_pos: usize = b.code.len();
    b.patch(jmp_end_pos, end_pos);
    Ok(())
}

pub open spec fn else_code(cx: UnitView, d: nat, e: ElseBranch, b: BuilderView) -> Built
    decreases d, e, 0nat, 0nat,
{
    match e {
        ElseBranch::Absent => Ok(b),
        ElseBranch::Block(blk) => block_code(cx, d, blk, b),
        ElseBranch::If(i) => if_code(cx, d, *i, b),
    }
}

fn compile_else(cx: &Unit, d: usize, e: &ElseBranch, b: &mut Builder) -> (r: Result<(), Error>)
    requires
        sound(old(b)@),
    ensures
        built(r, old(b)@, final(b)@, else_code(cx@, d as nat, *e, old(b)@)),
    decreases d, e, 0nat, 0nat,
{
    match e {
        ElseBranch::Absent => {
            Ok(())
        }
        ElseBranch::Block(blk) => {
            compile_block(cx, d, blk, b)
        }
        ElseBranch::If(i) => {
            compile_if(cx, d, i, b)
        }
    }
}

/// A conditional as an expression.
pub open spec fn if_into(cx: UnitView, d: nat, i: IfStmt, dst: u16, b: BuilderView) -> Built
    decreases d, i, 0nat, 0nat,
{
    match allocated(b, 1, cx.func.name@, cx.func.span) {
        Err(x) => Err(x),
        Ok((cond_r, b)) => match expr_into(cx, d, i.cond, cond_r, b) {
            Err(x) => Err(x),
            Ok(b) => {
                let jif_pos = b.code.len();
                let b = emitted(b, Instr::JumpIfFalse { cond: cond_r, offset: 0 });
                let b = freed(b, cond_r);
                match block_into(cx, d, i.then_block, dst, b) {
                    Err(x) => Err(x),
                    Ok(b) => {
                        let jmp_end_pos = b.code.len();
                        let b = emitted(b, Instr::Jump { offset: 0 });
                        let else_pos = b.code.len();
                        let b = patched(b, jif_pos, else_pos);
                        match else_into(cx, d, i.else_branch, dst, b) {
                            Err(x) => Err(x),
                            Ok(b) => {
                                let end_pos = b.code.len();
                                let b = patched(b, jmp_end_pos, end_pos);
                                Ok(b)
                            },
                        }
                    },
                }
            },
        },
    }
}

fn compile_if_into(cx: &Unit, d: usize, i: &IfStmt, dst: u16, b: &mut Builder) -> (r: Result<(), Error>)
    requires
        sound(old(b)@),
        dst < old(b)@.max,
    ensures
        built(r, old(b)@, final(b)@, if_into(cx@, d as nat, *i, dst, old(b)@)),
    decreases d, i, 0nat, 0nat,
{
    let cond_r: u16 = match b.take_regs(1, cx.func.name.as_str(), cx.func.span) {
        Ok(x) => x,
        Err(x) => return Err(x),
    };
    match compile_expr_into(cx, d, &i.cond, cond_r, b) {
        Ok(_) => {},
        Err(x) => return Err(x),
    }
    let jif_pos: usize = b.code.len();
    b.emit(Instr::JumpIfFalse { cond: cond_r, offset: 0 });
    b.free(cond_r);
    match compile_block_into(cx, d, &i.then_block, dst, b) {
        Ok(_) => {},
        Err(x) => return Err(x),
    }
    let jmp_end_pos: usize = b.code.len();
    b.emit(Instr::Jump { offset: 0 });
    let else_pos: usize = b.code.len();
    b.patch(jif_pos, else_pos);
    match compile_else_into(cx, d, &i.else_branch, dst, b) {
        Ok(_) => {},
        Err(x) => return Err(x),
    }
    let end_pos: usize = b.code.len();
    b.patch(jmp_end_pos, end_pos);
    Ok(())
}

pub open spec fn else_into(cx: UnitView, d: nat, e: ElseBranch, dst: u16, b: BuilderView) -> Built
    decreases d, e, 0nat, 0nat,
{
    match e {
        ElseBranch::Absent => {
            let idx = const_index(b, ConstView::Bool(false));
            let b = with_const(b, ConstView::Bool(false));
            let b = emitted(b, Instr::LoadConst { dst, idx });
            Ok(b)
        },
        ElseBranch::Block(blk) => block_into(cx, d, blk, dst, b),
        ElseBranch::If(i) => if_into(cx, d, *i, dst, b),
    }
}

fn compile_else_into(cx: &Unit, d: usize, e: &ElseBranch, dst: u16, b: &mut Builder) -> (r: Result<(), Error>)
    requires
        sound(old(b)@),
        dst < old(b)@.max,
    ensures
        built(r, old(b)@, final(b)@, else_into(cx@, d as nat, *e, dst, old(b)@)),
    decreases d, e, 0nat, 0nat,
{
    match e {
        ElseBranch::Absent => {
            let idx: u16 = b.const_idx(Const::Bool(false));
            b.emit(Instr::LoadConst { dst, idx });
            Ok(())
        }
        ElseBranch::Block(blk) => {
            compile_block_into(cx, d, blk, dst, b)
        }
        ElseBranch::If(i) => {
            compile_if_into(cx, d, i, dst, b)
        }
    }
}

/// A loop with a condition.
pub open spec fn while_code(cx: UnitView, d: nat, s: Stmt, b: BuilderView) -> Built
    decreases d, s, 1nat, 0nat,
{
    match s {
        Stmt::While { cond, body, span } => {
            let loop_start = b.code.len();
            match allocated(b, 1, cx.func.name@, cx.func.span) {
                Err(x) => Err(x),
                Ok((cond_reg, b)) => match expr_into(cx, d, cond, cond_reg, b) {
                    Err(x) => Err(x),
                    Ok(b) => {
                        let jif_pos = b.code.len();
                        let b = emitted(b, Instr::JumpIfFalse { cond: cond_reg, offset: 0 });
                        let b = freed(b, cond_reg);
                        let b = loop_opened(b);
                        match block_code(cx, d, body, b) {
                            Err(x) => Err(x),
                            Ok(b) => {
                                let frame = b.loops.last();
                                let b = loop_closed(b);
                                let jmp_pos = b.code.len();
                                let b = emitted(b, Instr::Jump { offset: 0 });
                                let b = patched(b, jmp_pos, loop_start);
                                let b = patched_all(
                                    b,
                                    frame.continues,
                                    frame.continues.len(),
                                    loop_start,
                                );
                                let end_pos = b.code.len();
                                let b = patched(b, jif_pos, end_pos);
                                let b = patched_all(
                                    b,
                                    frame.breaks,
                                    frame.breaks.len(),
                                    end_pos,
                                );
                                Ok(b)
                            },
                        }
                    },
                },
            }
        },
        _ => Ok(b),
    }
}

#[verifier::rlimit(100)]
fn compile_while(cx: &Unit, d: usize, s: &Stmt, b: &mut Builder) -> (r: Result<(), Error>)
    requires
        sound(old(b)@),
        old(b)@.scopes.len() > 0,
    ensures
        built(r, old(b)@, final(b)@, while_code(cx@, d as nat, *s, old(b)@)),
    decreases d, s, 1nat, 0nat,
{
    match s {
        Stmt::While { cond, body, span: _ } => {
            let loop_start: usize = b.code.len();
            let cond_reg: u16 = match b.take_regs(1, cx.func.name.as_str(), cx.func.span) {
                Ok(x) => x,
                Err(x) => return Err(x),
            };
            match compile_expr_into(cx, d, cond, cond_reg, b) {
                Ok(_) => {},
                Err(x) => return Err(x),
            }
            let jif_pos: usize = b.code.len();
            b.emit(Instr::JumpIfFalse { cond: cond_reg, offset: 0 });
            b.free(cond_reg);
            b.push_loop();
            match compile_block(cx, d, body, b) {
                Ok(_) => {},
                Err(x) => return Err(x),
            }
            let frame = b.pop_loop();
            let jmp_pos: usize = b.code.len();
            b.emit(Instr::Jump { offset: 0 });
            b.patch(jmp_pos, loop_start);
            b.patch_all(&frame.continue_jumps, loop_start);
            let end_pos: usize = b.code.len();
            b.patch(jif_pos, end_pos);
            b.patch_all(&frame.break_jumps, end_pos);
            Ok(())
        }
        _ => {
            Ok(())
        }
    }
}

/// A loop over the elements of an array, or over a collection state.
pub open spec fn for_code(cx: UnitView, d: nat, s: Stmt, b: BuilderView) -> Built
    decreases d, s, 1nat, 0nat,
{
    match s {
        Stmt::For { var, iter, body, span } => match streamed(cx, iter) {
            Some((k, kind)) => if kind == 4 {
                for_vec_code(cx, d, s, k as u16, b)
            } else {
                for_walk_code(cx, d, s, k as u16, kind == 3, b)
            },
            None => match allocated(b, 1, cx.func.name@, cx.func.span) {
                Err(x) => Err(x),
                Ok((arr_reg, b)) => match expr_into(cx, d, iter, arr_reg, b) {
                    Err(x) => Err(x),
                    Ok(b) => {
                        let b = prefetched(cx, b, arr_reg);
                        match array_head(cx, arr_reg, var@, b) {
                            Err(x) => Err(x),
                            Ok((h, b)) => {
                                let b = loop_opened(b);
                                match block_code(cx, d, body, b) {
                                    Err(x) => Err(x),
                                    Ok(b) => {
                                        let frame = b.loops.last();
                                        let b = loop_closed(b);
                                        let b = array_tail(h, frame, b);
                                        let b = freed(b, arr_reg);
                                        Ok(b)
                                    },
                                }
                            },
                        }
                    },
                },
            },
        },
        _ => Ok(b),
    }
}

#[verifier::rlimit(100)]
fn compile_for(cx: &Unit, d: usize, s: &Stmt, b: &mut Builder) -> (r: Result<(), Error>)
    requires
        sound(old(b)@),
        old(b)@.scopes.len() > 0,
    ensures
        built(r, old(b)@, final(b)@, for_code(cx@, d as nat, *s, old(b)@)),
    decreases d, s, 1nat, 0nat,
{
    match s {
        Stmt::For { var, iter, body, span: _ } => {
            match find_streamed(cx, iter) {
                Some((k, kind)) => {
                    if kind == 4 {
                        compile_for_streaming_pvec(cx, d, s, k as u16, b)
                    } else {
                        compile_for_streaming_walk(cx, d, s, k as u16, kind == 3, b)
                    }
                }
                None => {
                    let arr_reg: u16 = match b.take_regs(1, cx.func.name.as_str(), cx.func.span) {
                        Ok(x) => x,
                        Err(x) => return Err(x),
                    };
                    match compile_expr_into(cx, d, iter, arr_reg, b) {
                        Ok(_) => {},
                        Err(x) => return Err(x),
                    }
                    prefetch(cx, b, arr_reg);
                    let h = match open_array_loop(cx, arr_reg, var.as_str(), b) {
                        Ok(x) => x,
                        Err(x) => return Err(x),
                    };
                    b.push_loop();
                    match compile_block(cx, d, body, b) {
                        Ok(_) => {},
                        Err(x) => return Err(x),
                    }
                    let frame = b.pop_loop();
                    close_array_loop(&h, &frame, b);
                    b.free(arr_reg);
                    Ok(())
                }
            }
        }
        _ => {
            Ok(())
        }
    }
}

/// A loop over a persistent vector, by its indexes.
pub open spec fn for_vec_code(cx: UnitView, d: nat, s: Stmt, state_idx: u16, b: BuilderView) -> Built
    decreases d, s, 0nat, 0nat,
{
    match s {
        Stmt::For { var, iter, body, span } => match vec_head(cx, state_idx, var@, b) {
            Err(x) => Err(x),
            Ok((h, b)) => {
                let b = loop_opened(b);
                match block_code(cx, d, body, b) {
                    Err(x) => Err(x),
                    Ok(b) => {
                        let frame = b.loops.last();
                        let b = loop_closed(b);
                        let b = vec_tail(h, frame, b);
                        Ok(b)
                    },
                }
            },
        },
        _ => Ok(b),
    }
}

#[verifier::rlimit(100)]
fn compile_for_streaming_pvec(cx: &Unit, d: usize, s: &Stmt, state_idx: u16, b: &mut Builder) -> (r: Result<(), Error>)
    requires
        sound(old(b)@),
        old(b)@.scopes.len() > 0,
    ensures
        built(r, old(b)@, final(b)@, for_vec_code(cx@, d as nat, *s, state_idx, old(b)@)),
    decreases d, s, 0nat, 0nat,
{
    match s {
        Stmt::For { var, iter: _, body, span: _ } => {
            let h = match open_vec_loop(cx, state_idx, var.as_str(), b) {
                Ok(x) => x,
                Err(x) => return Err(x),
            };
            b.push_loop();
            match compile_block(cx, d, body, b) {
                Ok(_) => {},
                Err(x) => return Err(x),
            }
            let frame = b.pop_loop();
            close_vec_loop(&h, &frame, b);
            Ok(())
        }
        _ => {
            Ok(())
        }
    }
}

/// A loop over the values of a keyed state, by a cursor.
pub open spec fn for_walk_code(cx: UnitView, d: nat, s: Stmt, state_idx: u16, ordered: bool, b: BuilderView) -> Built
    decreases d, s, 0nat, 0nat,
{
    match s {
        Stmt::For { var, iter, body, span } => match walk_head(cx, state_idx, ordered, var@, b) {
            Err(x) => Err(x),
            Ok((h, b)) => {
                let b = loop_opened(b);
                match block_code(cx, d, body, b) {
                    Err(x) => Err(x),
                    Ok(b) => {
                        let frame = b.loops.last();
                        let b = loop_closed(b);
                        let b = walk_tail(h, frame, b);
                        Ok(b)
                    },
                }
            },
        },
        _ => Ok(b),
    }
}

#[verifier::rlimit(100)]
fn compile_for_streaming_walk(
    cx: &Unit,
    d: usize,
    s: &Stmt,
    state_idx: u16,
    ordered: bool,
    b: &mut Builder,
) -> (r: Result<(), Error>)
    requires
        sound(old(b)@),
        old(b)@.scopes.len() > 0,
    ensures
        built(r, old(b)@, final(b)@, for_walk_code(cx@, d as nat, *s, state_idx, ordered, old(b)@)),
    decreases d, s, 0nat, 0nat,
{
    match s {
        Stmt::For { var, iter: _, body, span: _ } => {
            let h = match open_walk_loop(cx, state_idx, ordered, var.as_str(), b) {
                Ok(x) => x,
                Err(x) => return Err(x),
            };
            b.push_loop();
            match compile_block(cx, d, body, b) {
                Ok(_) => {},
                Err(x) => return Err(x),
            }
            let frame = b.pop_loop();
            close_walk_loop(&h, &frame, b);
            Ok(())
        }
        _ => {
            Ok(())
        }
    }
}

/// A loop over a range.
pub open spec fn range_code(cx: UnitView, d: nat, s: Stmt, b: BuilderView) -> Built
    decreases d, s, 1nat, 0nat,
{
    match s {
        Stmt::ForRange { var, start, end, inclusive, body, span } => match allocated(b, 1, cx.func.name@, cx.func.span) {
            Err(x) => Err(x),
            Ok((counter, b)) => match expr_into(cx, d, start, counter, b) {
                Err(x) => Err(x),
                Ok(b) => match allocated(b, 1, cx.func.name@, cx.func.span) {
                    Err(x) => Err(x),
                    Ok((limit, b)) => match expr_into(cx, d, end, limit, b) {
                        Err(x) => Err(x),
                        Ok(b) => match range_head(cx, counter, limit, inclusive, var@, b) {
                            Err(x) => Err(x),
                            Ok((h, b)) => {
                                let b = loop_opened(b);
                                match block_code(cx, d, body, b) {
                                    Err(x) => Err(x),
                                    Ok(b) => {
                                        let frame = b.loops.last();
                                        let b = loop_closed(b);
                                        let b = range_tail(h, frame, b);
                                        let b = freed(b, limit);
                                        let b = freed(b, counter);
                                        Ok(b)
                                    },
                                }
                            },
                        },
                    },
                },
            },
        },
        _ => Ok(b),
    }
}

#[verifier::rlimit(100)]
fn compile_for_range(cx: &Unit, d: usize, s: &Stmt, b: &mut Builder) -> (r: Result<(), Error>)
    requires
        sound(old(b)@),
        old(b)@.scopes.len() > 0,
    ensures
        built(r, old(b)@, final(b)@, range_code(cx@, d as nat, *s, old(b)@)),
    decreases d, s, 1nat, 0nat,
{
    match s {
        Stmt::ForRange { var, start, end, inclusive, body, span: _ } => {
            let counter: u16 = match b.take_regs(1, cx.func.name.as_str(), cx.func.span) {
                Ok(x) => x,
                Err(x) => return Err(x),
            };
            match compile_expr_into(cx, d, start, counter, b) {
                Ok(_) => {},
                Err(x) => return Err(x),
            }
            let limit: u16 = match b.take_regs(1, cx.func.name.as_str(), cx.func.span) {
                Ok(x) => x,
                Err(x) => return Err(x),
            };
            match compile_expr_into(cx, d, end, limit, b) {
                Ok(_) => {},
                Err(x) => return Err(x),
            }
            let h = match open_range_loop(cx, counter, limit, *inclusive, var.as_str(), b) {
                Ok(x) => x,
                Err(x) => return Err(x),
            };
            b.push_loop();
            match compile_block(cx, d, body, b) {
                Ok(_) => {},
                Err(x) => return Err(x),
            }
            let frame = b.pop_loop();
            close_range_loop(&h, &frame, b);
            b.free(limit);
            b.free(counter);
            Ok(())
        }
        _ => {
            Ok(())
        }
    }
}

/// The code that stores a register in an assignment target.
pub open spec fn assign_code(cx: UnitView, d: nat, target: Expr, value_reg: u16, b: BuilderView) -> Built
    decreases d, target, 0nat, 0nat,
{
    match target.kind {
        ExprKind::Ident(name) => match local_reg(b.scopes, name@) {
            Some(reg) => {
                let b = if value_reg != reg {
                    emitted(b, Instr::Move { dst: reg, src: value_reg })
                } else {
                    b
                };
                Ok(b)
            },
            None => match place(cx.module.states@, name@) {
                Some(k) => {
                    let b = emitted(b, Instr::KvPut { src: value_reg, key_idx: k as u16 });
                    Ok(b)
                },
                None => Err(type_error("'"@ + name@ + "' is not assignable"@, target.span)),
            },
        },
        ExprKind::Index { target: t, key } => match t.kind {
            ExprKind::Ident(state) => match place(cx.module.states@, state@) {
                None => Err(type_error("'"@ + state@ + "' is not a state"@, t.span)),
                Some(k) => {
                    let kind = collection_kind(cx.module.states@[k].ty);
                    if kind == 0 {
                        Err(type_error("'"@ + state@ + "' is not indexable; only map/pmap/pvec cells can be assigned by index"@, t.span))
                    } else {
                        match allocated(b, 1, cx.func.name@, cx.func.span) {
                            Err(x) => Err(x),
                            Ok((key_reg, b)) => match expr_into(cx, d, *key, key_reg, b) {
                                Err(x) => Err(x),
                                Ok(b) => {
                                    let b = emitted(b, put_instr(kind, k as u16, key_reg, value_reg));
                                    if kind == 2 {
                                        match indexes_code(cx, 0, state@, value_reg, key_reg, false, b) {
                                            Err(x) => Err(x),
                                            Ok(b) => {
                                                let b = freed(b, key_reg);
                                                Ok(b)
                                            },
                                        }
                                    } else {
                                        let b = freed(b, key_reg);
                                        Ok(b)
                                    }
                                },
                            },
                        }
                    }
                },
            },
            _ => Err(type_error("indexed assignment target must be a state name"@, target.span)),
        },
        ExprKind::Field { target: inner, name } => match path_of(cx, b.scopes, target) {
            Some(p) => {
                let path_idx = path_number(b, p);
                let b = with_path(b, p);
                let b = emitted(b, Instr::KvPutPath { src: value_reg, path_idx });
                Ok(b)
            },
            None => match allocated(b, 1, cx.func.name@, cx.func.span) {
                Err(x) => Err(x),
                Ok((tmp, b)) => match expr_into(cx, d, *inner, tmp, b) {
                    Err(x) => Err(x),
                    Ok(b) => {
                        let name_idx = const_index(b, ConstView::Str(name@));
                        let b = with_const(b, ConstView::Str(name@));
                        let b = emitted(b, Instr::FieldSet { dst: tmp, name_idx, val: value_reg });
                        match assign_code(cx, d, *inner, tmp, b) {
                            Err(x) => Err(x),
                            Ok(b) => {
                                let b = freed(b, tmp);
                                Ok(b)
                            },
                        }
                    },
                },
            },
        },
        _ => Err(type_error("invalid assignment target"@, target.span)),
    }
}

#[verifier::rlimit(100)]
#[verifier::spinoff_prover]
fn assign_path(cx: &Unit, d: usize, target: &Expr, value_reg: u16, b: &mut Builder) -> (r: Result<(), Error>)
    requires
        sound(old(b)@),
        value_reg < old(b)@.max,
    ensures
        built(r, old(b)@, final(b)@, assign_code(cx@, d as nat, *target, value_reg, old(b)@)),
    decreases d, target, 0nat, 0nat,
{
    match &target.kind {
        ExprKind::Ident(name) => {
            match b.lookup_local(name.as_str()) {
                Some(reg) => {
                    if value_reg != reg {
                        b.emit(Instr::Move { dst: reg, src: value_reg });
                    }
                    Ok(())
                }
                None => {
                    match find_last(&cx.module.states, name.as_str()) {
                        Some(k) => {
                            b.emit(Instr::KvPut { src: value_reg, key_idx: k as u16 });
                            Ok(())
                        }
                        None => {
                            Err(type_err(concat3("'", name.as_str(), "' is not assignable"), target.span))
                        }
                    }
                }
            }
        }
        ExprKind::Index { target: t, key } => {
            match &t.kind {
                ExprKind::Ident(state) => {
                    match find_last(&cx.module.states, state.as_str()) {
                        None => {
                            Err(type_err(concat3("'", state.as_str(), "' is not a state"), t.span))
                        }
                        Some(k) => {
                            let kind: u8 = find_kind(&cx.module.states[k].ty);
                            if kind == 0 {
                                Err(type_err(concat3("'", state.as_str(), "' is not indexable; only map/pmap/pvec cells can be assigned by index"), t.span))
                            } else {
                                let key_reg: u16 = match b.take_regs(1, cx.func.name.as_str(), cx.func.span) {
                                    Ok(x) => x,
                                    Err(x) => return Err(x),
                                };
                                match compile_expr_into(cx, d, key, key_reg, b) {
                                    Ok(_) => {},
                                    Err(x) => return Err(x),
                                }
                                b.emit(make_put(kind, k as u16, key_reg, value_reg));
                                if kind == 2 {
                                    match compile_indexes(cx, state.as_str(), value_reg, key_reg, false, b) {
                                        Ok(_) => {},
                                        Err(x) => return Err(x),
                                    }
                                    b.free(key_reg);
                                    Ok(())
                                } else {
                                    b.free(key_reg);
                                    Ok(())
                                }
                            }
                        }
                    }
                }
                _ => {
                    Err(type_err(text("indexed assignment target must be a state name"), target.span))
                }
            }
        }
        ExprKind::Field { target: inner, name } => {
            match find_path(cx, b, target) {
                Some((state_idx, path, key, ty)) => {
                    let path_idx: u16 = b.intern_path(state_idx, path, key, ty.copy());
                    b.emit(Instr::KvPutPath { src: value_reg, path_idx });
                    Ok(())
                }
                None => {
                    let tmp: u16 = match b.take_regs(1, cx.func.name.as_str(), cx.func.span) {
                        Ok(x) => x,
                        Err(x) => return Err(x),
                    };
                    match compile_expr_into(cx, d, inner, tmp, b) {
                        Ok(_) => {},
                        Err(x) => return Err(x),
                    }
                    let name_idx: u16 = b.const_idx(Const::Str(name.clone()));
                    b.emit(Instr::FieldSet { dst: tmp, name_idx, val: value_reg });
                    match assign_path(cx, d, inner, tmp, b) {
                        Ok(_) => {},
                        Err(x) => return Err(x),
                    }
                    b.free(tmp);
                    Ok(())
                }
            }
        }
        _ => {
            Err(type_err(text("invalid assignment target"), target.span))
        }
    }
}

/// The removal of an entry: the indexes over the state first, while the entry can be read.
pub open spec fn delete_code(cx: UnitView, d: nat, target: Expr, span: Span, b: BuilderView) -> Built
    decreases d, target, 0nat, 0nat,
{
    match target.kind {
        ExprKind::Index { target: t, key } => match t.kind {
            ExprKind::Ident(state) => match place(cx.module.states@, state@) {
                None => Err(type_error("'"@ + state@ + "' is not a state"@, span)),
                Some(k) => {
                    let kind = collection_kind(cx.module.states@[k].ty);
                    if kind != 2 && kind != 3 {
                        Err(type_error("delete: '"@ + state@ + "' must be a pmap or pbtree state"@, span))
                    } else {
                        match allocated(b, 1, cx.func.name@, cx.func.span) {
                            Err(x) => Err(x),
                            Ok((key_reg, b)) => match expr_into(cx, d, *key, key_reg, b) {
                                Err(x) => Err(x),
                                Ok(b) => match removal_code(cx, state@, kind, k as u16, key_reg, b) {
                                    Err(x) => Err(x),
                                    Ok(b) => {
                                        let b = freed(b, key_reg);
                                        Ok(b)
                                    },
                                },
                            },
                        }
                    }
                },
            },
            _ => Err(type_error("delete target must be a state slot"@, span)),
        },
        _ => Err(type_error("delete target must be `state[key]`"@, span)),
    }
}

#[verifier::rlimit(100)]
fn compile_delete(cx: &Unit, d: usize, target: &Expr, span: Span, b: &mut Builder) -> (r: Result<(), Error>)
    requires
        sound(old(b)@),
    ensures
        built(r, old(b)@, final(b)@, delete_code(cx@, d as nat, *target, span, old(b)@)),
    decreases d, target, 0nat, 0nat,
{
    match &target.kind {
        ExprKind::Index { target: t, key } => {
            match &t.kind {
                ExprKind::Ident(state) => {
                    match find_last(&cx.module.states, state.as_str()) {
                        None => {
                            Err(type_err(concat3("'", state.as_str(), "' is not a state"), span))
                        }
                        Some(k) => {
                            let kind: u8 = find_kind(&cx.module.states[k].ty);
                            if kind != 2 && kind != 3 {
                                Err(type_err(concat3("delete: '", state.as_str(), "' must be a pmap or pbtree state"), span))
                            } else {
                                let key_reg: u16 = match b.take_regs(1, cx.func.name.as_str(), cx.func.span) {
                                    Ok(x) => x,
                                    Err(x) => return Err(x),
                                };
                                match compile_expr_into(cx, d, key, key_reg, b) {
                                    Ok(_) => {},
                                    Err(x) => return Err(x),
                                }
                                match compile_removal(cx, state.as_str(), kind, k as u16, key_reg, b) {
                                    Ok(_) => {},
                                    Err(x) => return Err(x),
                                }
                                b.free(key_reg);
                                Ok(())
                            }
                        }
                    }
                }
                _ => {
                    Err(type_err(text("delete target must be a state slot"), span))
                }
            }
        }
        _ => {
            Err(type_err(text("delete target must be `state[key]`"), span))
        }
    }
}

/// The clauses of a comprehension from the `i`-th on.
pub open spec fn comp_code(
    cx: UnitView,
    d: nat,
    e: Expr,
    clauses: Seq<CompClause>,
    i: nat,
    dst: u16,
    b: BuilderView,
) -> Built
    decreases d, e, 1nat, (if i < clauses.len() { 2 * (clauses.len() - i) + 1 } else { 0 }),
    when comp_has(e, clauses)
{
    if i >= clauses.len() {
        comp_leaf(cx, d, e, dst, b)
    } else {
        match clauses[i as int] {
            CompClause::For { var, iter } => match streamed(cx, iter) {
                Some((k, kind)) => if kind == 4 {
                    comp_vec_code(cx, d, e, clauses, i, var@, k as u16, dst, b)
                } else {
                    comp_walk_code(cx, d, e, clauses, i, var@, k as u16, kind == 3, dst, b)
                },
                None => match allocated(b, 1, cx.func.name@, cx.func.span) {
                    Err(x) => Err(x),
                    Ok((arr_reg, b)) => match expr_into(cx, d, iter, arr_reg, b) {
                        Err(x) => Err(x),
                        Ok(b) => {
                            let b = if i == 0 {
                                prefetched(cx, b, arr_reg)
                            } else {
                                b
                            };
                            match array_head(cx, arr_reg, var@, b) {
                                Err(x) => Err(x),
                                Ok((h, b)) => match comp_code(cx, d, e, clauses, i + 1, dst, b) {
                                    Err(x) => Err(x),
                                    Ok(b) => {
                                        let b = array_tail(h, no_jumps(), b);
                                        let b = freed(b, arr_reg);
                                        Ok(b)
                                    },
                                },
                            }
                        },
                    },
                },
            },
            CompClause::If(cond) => match allocated(b, 1, cx.func.name@, cx.func.span) {
                Err(x) => Err(x),
                Ok((f_reg, b)) => match expr_into(cx, d, cond, f_reg, b) {
                    Err(x) => Err(x),
                    Ok(b) => {
                        let pos = b.code.len();
                        let b = emitted(b, Instr::JumpIfFalse { cond: f_reg, offset: 0 });
                        let b = freed(b, f_reg);
                        match comp_code(cx, d, e, clauses, i + 1, dst, b) {
                            Err(x) => Err(x),
                            Ok(b) => {
                                let here = b.code.len();
                                let b = patched(b, pos, here);
                                Ok(b)
                            },
                        }
                    },
                },
            },
        }
    }
}

#[verifier::rlimit(100)]
#[verifier::spinoff_prover]
fn lower_comp(
    cx: &Unit,
    d: usize,
    e: &Expr,
    clauses: &Vec<CompClause>,
    i: usize,
    dst: u16,
    b: &mut Builder,
) -> (r: Result<(), Error>)
    requires
        sound(old(b)@),
        dst < old(b)@.max,
        comp_has(*e, clauses@),
    ensures
        built(r, old(b)@, final(b)@, comp_code(cx@, d as nat, *e, clauses@, i as nat, dst, old(b)@)),
    decreases d, e, 1nat, (if i < clauses@.len() { 2 * (clauses@.len() - i) + 1 } else { 0 }),
{
    if i >= clauses.len() {
        emit_comp_leaf(cx, d, e, dst, b)
    } else {
        match &clauses[i] {
            CompClause::For { var, iter } => {
                match find_streamed(cx, iter) {
                    Some((k, kind)) => {
                        if kind == 4 {
                            lower_comp_for_pvec(cx, d, e, clauses, i, var.as_str(), k as u16, dst, b)
                        } else {
                            lower_comp_for_walk(cx, d, e, clauses, i, var.as_str(), k as u16, kind == 3, dst, b)
                        }
                    }
                    None => {
                        let arr_reg: u16 = match b.take_regs(1, cx.func.name.as_str(), cx.func.span) {
                            Ok(x) => x,
                            Err(x) => return Err(x),
                        };
                        match compile_expr_into(cx, d, iter, arr_reg, b) {
                            Ok(_) => {},
                            Err(x) => return Err(x),
                        }
                        if i == 0 {
                            prefetch(cx, b, arr_reg);
                        }
                        let h = match open_array_loop(cx, arr_reg, var.as_str(), b) {
                            Ok(x) => x,
                            Err(x) => return Err(x),
                        };
                        match lower_comp(cx, d, e, clauses, i + 1, dst, b) {
                            Ok(_) => {},
                            Err(x) => return Err(x),
                        }
                        close_array_loop(&h, &no_frame(), b);
                        b.free(arr_reg);
                        Ok(())
                    }
                }
            }
            CompClause::If(cond) => {
                let f_reg: u16 = match b.take_regs(1, cx.func.name.as_str(), cx.func.span) {
                    Ok(x) => x,
                    Err(x) => return Err(x),
                };
                match compile_expr_into(cx, d, cond, f_reg, b) {
                    Ok(_) => {},
                    Err(x) => return Err(x),
                }
                let pos: usize = b.code.len();
                b.emit(Instr::JumpIfFalse { cond: f_reg, offset: 0 });
                b.free(f_reg);
                match lower_comp(cx, d, e, clauses, i + 1, dst, b) {
                    Ok(_) => {},
                    Err(x) => return Err(x),
                }
                let here: usize = b.code.len();
                b.patch(pos, here);
                Ok(())
            }
        }
    }
}

pub open spec fn comp_vec_code(
    cx: UnitView,
    d: nat,
    e: Expr,
    clauses: Seq<CompClause>,
    i: nat,
    var: Seq<char>,
    state_idx: u16,
    dst: u16,
    b: BuilderView,
) -> Built
    decreases d, e, 1nat, 2 * (clauses.len() - i),
    when comp_has(e, clauses) && i < clauses.len()
{
    match vec_head(cx, state_idx, var, b) {
        Err(x) => Err(x),
        Ok((h, b)) => match comp_code(cx, d, e, clauses, i + 1, dst, b) {
            Err(x) => Err(x),
            Ok(b) => {
                let b = vec_tail(h, no_jumps(), b);
                Ok(b)
            },
        },
    }
}

fn lower_comp_for_pvec(
    cx: &Unit,
    d: usize,
    e: &Expr,
    clauses: &Vec<CompClause>,
    i: usize,
    var: &str,
    state_idx: u16,
    dst: u16,
    b: &mut Builder,
) -> (r: Result<(), Error>)
    requires
        sound(old(b)@),
        dst < old(b)@.max,
        comp_has(*e, clauses@),
        i < clauses@.len(),
    ensures
        built(
            r,
            old(b)@,
            final(b)@,
            comp_vec_code(cx@, d as nat, *e, clauses@, i as nat, var@, state_idx, dst, old(b)@),
        ),
    decreases d, e, 1nat, 2 * (clauses@.len() - i),
{
    let count: usize = clauses.len();
    assert(i < count);
    let h = match open_vec_loop(cx, state_idx, var, b) {
        Ok(x) => x,
        Err(x) => return Err(x),
    };
    match lower_comp(cx, d, e, clauses, i + 1, dst, b) {
        Ok(_) => {},
        Err(x) => return Err(x),
    }
    close_vec_loop(&h, &no_frame(), b);
    Ok(())
}

pub open spec fn comp_walk_code(
    cx: UnitView,
    d: nat,
    e: Expr,
    clauses: Seq<CompClause>,
    i: nat,
    var: Seq<char>,
    state_idx: u16,
    ordered: bool,
    dst: u16,
    b: BuilderView,
) -> Built
    decreases d, e, 1nat, 2 * (clauses.len() - i),
    when comp_has(e, clauses) && i < clauses.len()
{
    match walk_head(cx, state_idx, ordered, var, b) {
        Err(x) => Err(x),
        Ok((h, b)) => match comp_code(cx, d, e, clauses, i + 1, dst, b) {
            Err(x) => Err(x),
            Ok(b) => {
                let b = walk_tail(h, no_jumps(), b);
                Ok(b)
            },
        },
    }
}

fn lower_comp_for_walk(
    cx: &Unit,
    d: usize,
    e: &Expr,
    clauses: &Vec<CompClause>,
    i: usize,
    var: &str,
    state_idx: u16,
    ordered: bool,
    dst: u16,
    b: &mut Builder,
) -> (r: Result<(), Error>)
    requires
        sound(old(b)@),
        dst < old(b)@.max,
        comp_has(*e, clauses@),
        i < clauses@.len(),
    ensures
        built(
            r,
            old(b)@,
            final(b)@,
            comp_walk_code(cx@, d as nat, *e, clauses@, i as nat, var@, state_idx, ordered, dst, old(b)@),
        ),
    decreases d, e, 1nat, 2 * (clauses@.len() - i),
{
    let count: usize = clauses.len();
    assert(i < count);
    let h = match open_walk_loop(cx, state_idx, ordered, var, b) {
        Ok(x) => x,
        Err(x) => return Err(x),
    };
    match lower_comp(cx, d, e, clauses, i + 1, dst, b) {
        Ok(_) => {},
        Err(x) => return Err(x),
    }
    close_walk_loop(&h, &no_frame(), b);
    Ok(())
}

/// One more item of a comprehension.
pub open spec fn comp_leaf(cx: UnitView, d: nat, e: Expr, dst: u16, b: BuilderView) -> Built
    decreases d, e, 0nat, 0nat,
{
    match e.kind {
        ExprKind::ListComp { mapper, clauses } => match allocated(b, 1, cx.func.name@, cx.func.span) {
            Err(x) => Err(x),
            Ok((elem_reg, b)) => match expr_into(cx, d, *mapper, elem_reg, b) {
                Err(x) => Err(x),
                Ok(b) => {
                    let b = emitted(b, Instr::ArrayAppend { dst, arr: dst, elem: elem_reg });
                    let b = freed(b, elem_reg);
                    Ok(b)
                },
            },
        },
        ExprKind::SetComp { mapper, clauses } => match allocated(b, 1, cx.func.name@, cx.func.span) {
            Err(x) => Err(x),
            Ok((elem_reg, b)) => match expr_into(cx, d, *mapper, elem_reg, b) {
                Err(x) => Err(x),
                Ok(b) => match insert_code(cx, elem_reg, dst, b) {
                    Err(x) => Err(x),
                    Ok(b) => {
                        let b = freed(b, elem_reg);
                        Ok(b)
                    },
                },
            },
        },
        ExprKind::DictComp { key, value, clauses } => match allocated(b, 1, cx.func.name@, cx.func.span) {
            Err(x) => Err(x),
            Ok((args_dict, b)) => {
                let b = emitted(b, Instr::Move { dst: args_dict, src: dst });
                match allocated(b, 1, cx.func.name@, cx.func.span) {
                    Err(x) => Err(x),
                    Ok((args_key, b)) => match expr_into(cx, d, *key, args_key, b) {
                        Err(x) => Err(x),
                        Ok(b) => match allocated(b, 1, cx.func.name@, cx.func.span) {
                            Err(x) => Err(x),
                            Ok((args_val, b)) => match expr_into(cx, d, *value, args_val, b) {
                                Err(x) => Err(x),
                                Ok(b) => {
                                    let name_idx = const_index(b, ConstView::Str("dict_set"@));
                                    let b = with_const(b, ConstView::Str("dict_set"@));
                                    let b = emitted(
                                        b,
                                        Instr::BuiltinCall {
                                            dst,
                                            name_idx,
                                            args_start: args_dict,
                                            n_args: 3,
                                        },
                                    );
                                    let b = freed(b, args_val);
                                    let b = freed(b, args_key);
                                    let b = freed(b, args_dict);
                                    Ok(b)
                                },
                            },
                        },
                    },
                }
            },
        },
        _ => Ok(b),
    }
}

#[verifier::rlimit(100)]
#[verifier::spinoff_prover]
fn emit_comp_leaf(cx: &Unit, d: usize, e: &Expr, dst: u16, b: &mut Builder) -> (r: Result<(), Error>)
    requires
        sound(old(b)@),
        dst < old(b)@.max,
    ensures
        built(r, old(b)@, final(b)@, comp_leaf(cx@, d as nat, *e, dst, old(b)@)),
    decreases d, e, 0nat, 0nat,
{
    match &e.kind {
        ExprKind::ListComp { mapper, clauses: _ } => {
            let elem_reg: u16 = match b.take_regs(1, cx.func.name.as_str(), cx.func.span) {
                Ok(x) => x,
                Err(x) => return Err(x),
            };
            match compile_expr_into(cx, d, mapper, elem_reg, b) {
                Ok(_) => {},
                Err(x) => return Err(x),
            }
            b.emit(Instr::ArrayAppend { dst, arr: dst, elem: elem_reg });
            b.free(elem_reg);
            Ok(())
        }
        ExprKind::SetComp { mapper, clauses: _ } => {
            let elem_reg: u16 = match b.take_regs(1, cx.func.name.as_str(), cx.func.span) {
                Ok(x) => x,
                Err(x) => return Err(x),
            };
            match compile_expr_into(cx, d, mapper, elem_reg, b) {
                Ok(_) => {},
                Err(x) => return Err(x),
            }
            match compile_insert(cx, elem_reg, dst, b) {
                Ok(_) => {},
                Err(x) => return Err(x),
            }
            b.free(elem_reg);
            Ok(())
        }
        ExprKind::DictComp { key, value, clauses: _ } => {
            let args_dict: u16 = match b.take_regs(1, cx.func.name.as_str(), cx.func.span) {
                Ok(x) => x,
                Err(x) => return Err(x),
            };
            b.emit(Instr::Move { dst: args_dict, src: dst });
            let args_key: u16 = match b.take_regs(1, cx.func.name.as_str(), cx.func.span) {
                Ok(x) => x,
                Err(x) => return Err(x),
            };
            match compile_expr_into(cx, d, key, args_key, b) {
                Ok(_) => {},
                Err(x) => return Err(x),
            }
            let args_val: u16 = match b.take_regs(1, cx.func.name.as_str(), cx.func.span) {
                Ok(x) => x,
                Err(x) => return Err(x),
            };
            match compile_expr_into(cx, d, value, args_val, b) {
                Ok(_) => {},
                Err(x) => return Err(x),
            }
            let name_idx: u16 = b.const_idx(Const::Str(text("dict_set")));
            b.emit(Instr::BuiltinCall { dst, name_idx, args_start: args_dict, n_args: 3 });
            b.free(args_val);
            b.free(args_key);
            b.free(args_dict);
            Ok(())
        }
        _ => {
            Ok(())
        }
    }
}


} // verus!
