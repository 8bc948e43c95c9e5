//! What each function may do: read state, write state, or call out.
//!
//! A function's class is the join of everything in its body. A call of another
//! function of the module counts for that function's class, so the classes are
//! the least assignment that is closed under this rule. It is found by starting
//! every function at `Pure` and raising classes until nothing changes.

use vstd::prelude::*;
use crate::ast::{
    Block, CompClause, ElseBranch, Expr, ExprKind, FnDef, IfStmt, InterfaceMethodSig, MatchArm,
    Module, Stmt, Type,
};
use crate::error::{Error, ErrorKind, ErrorView};
use crate::tables::{find_first, find_last, first_place, name_set, place};
use crate::text::{concat3, same};

verus! {

/// The effects of a piece of code.
#[derive(Debug, Clone, Copy, PartialEq, Eq, Structural)]
pub enum EffectClass {
    /// No state reads, no state writes, no host imports.
    Pure,
    /// Reads state but never writes.
    ReadOnly,
    /// Writes state but never reads.
    WriteOnly,
    /// Both reads and writes.
    ReadWrite,
    /// Calls host imports or has effects nobody can tell.
    Impure,
}

pub open spec fn may_read(c: EffectClass) -> bool {
    c is ReadOnly || c is ReadWrite || c is Impure
}

pub open spec fn may_write(c: EffectClass) -> bool {
    c is WriteOnly || c is ReadWrite || c is Impure
}

/// The least class that covers both.
pub open spec fn joined(a: EffectClass, b: EffectClass) -> EffectClass {
    if a is Impure || b is Impure {
        EffectClass::Impure
    } else if may_read(a) || may_read(b) {
        if may_write(a) || may_write(b) {
            EffectClass::ReadWrite
        } else {
            EffectClass::ReadOnly
        }
    } else if may_write(a) || may_write(b) {
        EffectClass::WriteOnly
    } else {
        EffectClass::Pure
    }
}

/// Whether `b` covers `a`.
pub open spec fn covers(b: EffectClass, a: EffectClass) -> bool {
    joined(a, b) == b
}

/// How far a class is from `Pure`.
pub open spec fn height(c: EffectClass) -> nat {
    match c {
        EffectClass::Pure => 0,
        EffectClass::ReadOnly => 1,
        EffectClass::WriteOnly => 1,
        EffectClass::ReadWrite => 2,
        EffectClass::Impure => 3,
    }
}

impl EffectClass {
    pub fn reads(self) -> (r: bool)
        ensures
            r == may_read(self),
    {
        match self {
            EffectClass::ReadOnly | EffectClass::ReadWrite | EffectClass::Impure => true,
            _ => false,
        }
    }

    pub fn writes(self) -> (r: bool)
        ensures
            r == may_write(self),
    {
        match self {
            EffectClass::WriteOnly | EffectClass::ReadWrite | EffectClass::Impure => true,
            _ => false,
        }
    }

    pub fn impure(self) -> (r: bool)
        ensures
            r == (self is Impure),
    {
        match self {
            EffectClass::Impure => true,
            _ => false,
        }
    }

    pub fn join(self, other: EffectClass) -> (r: EffectClass)
        ensures
            r == joined(self, other),
    {
        let r = self.reads() || other.reads();
        let w = self.writes() || other.writes();
        if self.impure() || other.impure() {
            EffectClass::Impure
        } else if r {
            if w {
                EffectClass::ReadWrite
            } else {
                EffectClass::ReadOnly
            }
        } else if w {
            EffectClass::WriteOnly
        } else {
            EffectClass::Pure
        }
    }
}

/// The classes form a join semilattice with `Pure` at the bottom and `Impure`
/// at the top.
pub proof fn join_is_a_semilattice(a: EffectClass, b: EffectClass, c: EffectClass)
    ensures
        joined(a, a) == a,
        joined(a, b) == joined(b, a),
        joined(joined(a, b), c) == joined(a, joined(b, c)),
        joined(EffectClass::Pure, a) == a,
        joined(EffectClass::Impure, a) == EffectClass::Impure,
        covers(joined(a, b), a),
        covers(c, a) && covers(c, b) ==> covers(c, joined(a, b)),
{
}

/// One thing that a piece of code does: something of a known class, or a call
/// of a function of the module, by its place.
pub enum Atom {
    Known(EffectClass),
    Local(int),
}

/// The class of an atom, given the classes of the module's functions.
pub open spec fn atom_class(a: Atom, locals: Seq<EffectClass>) -> EffectClass {
    match a {
        Atom::Known(c) => c,
        Atom::Local(k) => if 0 <= k < locals.len() {
            locals[k]
        } else {
            EffectClass::Impure
        },
    }
}

/// The join of a class and a list of atoms.
pub open spec fn total(acc: EffectClass, s: Seq<Atom>, locals: Seq<EffectClass>) -> EffectClass
    decreases s.len(),
{
    if s.len() == 0 {
        acc
    } else {
        joined(total(acc, s.drop_last(), locals), atom_class(s.last(), locals))
    }
}

proof fn lemma_total_split(acc: EffectClass, s: Seq<Atom>, t: Seq<Atom>, locals: Seq<EffectClass>)
    ensures
        total(acc, s + t, locals) == total(total(acc, s, locals), t, locals),
    decreases t.len(),
{
    if t.len() == 0 {
        assert(s + t =~= s);
    } else {
        lemma_total_split(acc, s, t.drop_last(), locals);
        assert((s + t).drop_last() =~= s + t.drop_last());
    }
}

/// Whether every class of `y` covers its counterpart in `x`.
pub open spec fn all_cover(y: Seq<EffectClass>, x: Seq<EffectClass>) -> bool {
    x.len() == y.len() && forall|i: int| 0 <= i < x.len() ==> covers(#[trigger] y[i], x[i])
}

/// More effects below, more effects above.
proof fn lemma_total_mono(s: Seq<Atom>, x: Seq<EffectClass>, y: Seq<EffectClass>)
    requires
        all_cover(y, x),
    ensures
        covers(total(EffectClass::Pure, s, y), total(EffectClass::Pure, s, x)),
    decreases s.len(),
{
    if s.len() > 0 {
        lemma_total_mono(s.drop_last(), x, y);
        match s.last() {
            Atom::Known(_) => {},
            Atom::Local(k) => {
                if 0 <= k < x.len() {
                    assert(covers(y[k], x[k]));
                }
            },
        }
    }
}

/// The builtins that only transform their arguments.
pub open spec fn pure_builtin(name: Seq<char>) -> bool {
    name == "resource"@
        || name == "unwrap"@
        || name == "address"@
        || name == "len"@
        || name == "assert"@
        || name == "set_insert"@
        || name == "set_remove"@
        || name == "set_contains"@
        || name == "set_len"@
        || name == "dict_set"@
        || name == "dict_remove"@
        || name == "dict_get"@
        || name == "dict_has"@
        || name == "dict_len"@
        || name == "i64"@
        || name == "i32"@
        || name == "u32"@
        || name == "u64"@
        || name == "u128"@
        || name == "msg_sender"@
        || name == "block_timestamp"@
        || name == "block_number"@
        || name == "to_bytes"@
        || name == "bytes_len"@
        || name == "bytes_concat"@
        || name == "bytes_eq"@
        || name == "bytes_slice"@
        || name == "string_concat"@
        || name == "string_slice"@
        || name == "string_contains"@
        || name == "sum"@
        || name == "max"@
        || name == "min"@
        || name == "parse_json"@
        || name == "json_stringify"@
        || name == "json_get_field"@
        || name == "json_get_index"@
        || name == "json_to_string"@
        || name == "json_to_i64"@
        || name == "json_to_u64"@
        || name == "json_to_bool"@
        || name == "json_is_null"@
}

/// The builtins that walk a state collection.
pub open spec fn state_reading_builtin(name: Seq<char>) -> bool {
    name == "pmap_contains"@
        || name == "pvec_len"@
        || name == "pmap_entries"@
        || name == "pmap_keys"@
        || name == "pmap_values"@
        || name == "pvec_to_array"@
        || name == "pbtree_contains"@
        || name == "pbtree_range"@
}

fn is_pure_builtin(name: &str) -> (r: bool)
    ensures
        r == pure_builtin(name@),
{
    same(name, "resource")
        || same(name, "unwrap")
        || same(name, "address")
        || same(name, "len")
        || same(name, "assert")
        || same(name, "set_insert")
        || same(name, "set_remove")
        || same(name, "set_contains")
        || same(name, "set_len")
        || same(name, "dict_set")
        || same(name, "dict_remove")
        || same(name, "dict_get")
        || same(name, "dict_has")
        || same(name, "dict_len")
        || same(name, "i64")
        || same(name, "i32")
        || same(name, "u32")
        || same(name, "u64")
        || same(name, "u128")
        || same(name, "msg_sender")
        || same(name, "block_timestamp")
        || same(name, "block_number")
        || same(name, "to_bytes")
        || same(name, "bytes_len")
        || same(name, "bytes_concat")
        || same(name, "bytes_eq")
        || same(name, "bytes_slice")
        || same(name, "string_concat")
        || same(name, "string_slice")
        || same(name, "string_contains")
        || same(name, "sum")
        || same(name, "max")
        || same(name, "min")
        || same(name, "parse_json")
        || same(name, "json_stringify")
        || same(name, "json_get_field")
        || same(name, "json_get_index")
        || same(name, "json_to_string")
        || same(name, "json_to_i64")
        || same(name, "json_to_u64")
        || same(name, "json_to_bool")
        || same(name, "json_is_null")
}

fn is_state_reading_builtin(name: &str) -> (r: bool)
    ensures
        r == state_reading_builtin(name@),
{
    same(name, "pmap_contains")
        || same(name, "pvec_len")
        || same(name, "pmap_entries")
        || same(name, "pmap_keys")
        || same(name, "pmap_values")
        || same(name, "pvec_to_array")
        || same(name, "pbtree_contains")
        || same(name, "pbtree_range")
}

/// Everything a classification looks names up in.
pub struct Ctx<'a> {
    pub module: &'a Module,
    /// Known classes of functions of other modules, by `module::name`.
    pub externals: &'a Vec<(String, EffectClass)>,
    /// Names of interfaces declared elsewhere.
    pub ifaces: &'a Vec<String>,
}

/// The model of a [`Ctx`].
pub struct CtxView {
    pub module: Module,
    pub externals: Map<Seq<char>, EffectClass>,
    pub ifaces: Set<Seq<char>>,
}

/// The classes by name; a later entry hides an earlier one.
pub open spec fn class_map(s: Seq<(String, EffectClass)>) -> Map<Seq<char>, EffectClass>
    decreases s.len(),
{
    if s.len() == 0 {
        Map::empty()
    } else {
        class_map(s.drop_last()).insert(s.last().0@, s.last().1)
    }
}

proof fn lemma_class_map(s: Seq<(String, EffectClass)>, name: Seq<char>)
    ensures
        class_map(s).dom().contains(name) <==> place(s, name) is Some,
        place(s, name) matches Some(k) ==> 0 <= k < s.len() && class_map(s)[name] == s[k].1,
    decreases s.len(),
{
    if s.len() > 0 {
        lemma_class_map(s.drop_last(), name);
    }
}

impl<'a> View for Ctx<'a> {
    type V = CtxView;

    open spec fn view(&self) -> CtxView {
        CtxView {
            module: *self.module,
            externals: class_map(self.externals@),
            ifaces: name_set(self.ifaces@),
        }
    }
}

pub open spec fn is_state(m: Module, name: Seq<char>) -> bool {
    place(m.states@, name) is Some
}

/// The key under which a function of another module is known.
pub open spec fn external_key(module: Seq<char>, name: Seq<char>) -> Seq<char> {
    module + "::"@ + name
}

/// What a call of a function of another module does.
pub open spec fn external_atoms(cx: CtxView, module: Seq<char>, name: Seq<char>) -> Seq<Atom> {
    let key = external_key(module, name);
    if name == "bind"@ && (place(cx.module.interfaces@, module) is Some || cx.ifaces.contains(module)) {
        Seq::empty()
    } else if cx.externals.dom().contains(key) {
        seq![Atom::Known(cx.externals[key])]
    } else {
        seq![Atom::Known(EffectClass::Impure)]
    }
}

/// What a plain call does.
pub open spec fn call_atoms(cx: CtxView, name: Seq<char>) -> Seq<Atom> {
    if pure_builtin(name) {
        Seq::empty()
    } else if state_reading_builtin(name) {
        seq![Atom::Known(EffectClass::ReadOnly)]
    } else if place(cx.module.imports@, name) is Some {
        seq![Atom::Known(EffectClass::Impure)]
    } else {
        match place(cx.module.functions@, name) {
            Some(k) => seq![Atom::Local(k)],
            None => seq![Atom::Known(EffectClass::Impure)],
        }
    }
}

/// The declared class of an interface method.
pub open spec fn method_class(methods: Seq<InterfaceMethodSig>, name: Seq<char>) -> EffectClass {
    match first_place(methods, name) {
        Some(k) => if methods[k].is_pure {
            EffectClass::Pure
        } else if methods[k].is_view {
            EffectClass::ReadOnly
        } else {
            EffectClass::Impure
        },
        None => EffectClass::Impure,
    }
}

/// The class of a call through an interface value: by the flags of the call, or
/// else by the declaration of the state the value is kept in.
pub open spec fn dyn_class(
    cx: CtxView,
    target: Seq<char>,
    method: Seq<char>,
    is_view: bool,
    is_pure: bool,
) -> EffectClass {
    if is_pure {
        EffectClass::Pure
    } else if is_view {
        EffectClass::ReadOnly
    } else {
        match place(cx.module.states@, target) {
            Some(k) => match cx.module.states@[k].ty {
                Type::Interface { name, methods } => method_class(methods@, method),
                _ => EffectClass::Impure,
            },
            None => EffectClass::Impure,
        }
    }
}

/// Whether an assignment to the target changes a state.
pub open spec fn writes_state(cx: CtxView, target: Expr) -> bool
    decreases target,
{
    match target.kind {
        ExprKind::Ident(name) => is_state(cx.module, name@),
        ExprKind::Index { target: t, key } => writes_state(cx, *t),
        ExprKind::Field { target: t, name } => writes_state(cx, *t),
        _ => false,
    }
}

/// What evaluating the keys inside an assignment target does.
pub open spec fn target_atoms(cx: CtxView, target: Expr) -> Seq<Atom>
    decreases target, 0nat,
{
    match target.kind {
        ExprKind::Index { target: t, key } => target_atoms(cx, *t) + expr_atoms(cx, *key),
        ExprKind::Field { target: t, name } => target_atoms(cx, *t),
        _ => Seq::empty(),
    }
}

/// What changing a target does, apart from its keys.
pub open spec fn write_atoms(cx: CtxView, target: Expr) -> Seq<Atom> {
    if writes_state(cx, target) {
        seq![Atom::Known(EffectClass::WriteOnly)]
    } else {
        Seq::empty()
    }
}

pub open spec fn block_atoms(cx: CtxView, b: Block) -> Seq<Atom>
    decreases b, 0nat,
{
    stmts_atoms(cx, b.stmts@, b.stmts@.len()) + match b.tail {
        Some(t) => expr_atoms(cx, *t),
        None => Seq::empty(),
    }
}

pub open spec fn stmts_atoms(cx: CtxView, s: Seq<Stmt>, n: nat) -> Seq<Atom>
    decreases s, n,
    when n <= s.len()
{
    if n == 0 {
        Seq::empty()
    } else {
        stmts_atoms(cx, s, (n - 1) as nat) + stmt_atoms(cx, s[n - 1])
    }
}

pub open spec fn stmt_atoms(cx: CtxView, s: Stmt) -> Seq<Atom>
    decreases s, 0nat,
{
    match s {
        Stmt::Let { name, ty, value, span } => expr_atoms(cx, value),
        Stmt::Assign { target, value, span } => write_atoms(cx, target) + target_atoms(cx, target)
            + expr_atoms(cx, value),
        Stmt::Return { value, span } => match value {
            Some(e) => expr_atoms(cx, e),
            None => Seq::empty(),
        },
        Stmt::If(i) => if_atoms(cx, i),
        Stmt::While { cond, body, span } => expr_atoms(cx, cond) + block_atoms(cx, body),
        Stmt::For { var, iter, body, span } => expr_atoms(cx, iter) + block_atoms(cx, body),
        Stmt::ForRange { var, start, end, inclusive, body, span } => expr_atoms(cx, start)
            + expr_atoms(cx, end) + block_atoms(cx, body),
        Stmt::Break(_) | Stmt::Continue(_) | Stmt::Placeholder(_) => Seq::empty(),
        Stmt::Expr(e) => expr_atoms(cx, e),
        Stmt::Parallel { stmts, span } => stmts_atoms(cx, stmts@, stmts@.len()),
        Stmt::ParallelForTo { id_var, source, output, body, span } => write_atoms(cx, output)
            + target_atoms(cx, output) + expr_atoms(cx, source) + block_atoms(cx, body),
        Stmt::Delete { target, span } => seq![Atom::Known(EffectClass::WriteOnly)] + expr_atoms(
            cx,
            target,
        ),
        Stmt::Emit { value, span } => seq![Atom::Known(EffectClass::WriteOnly)] + expr_atoms(
            cx,
            *value,
        ),
        Stmt::LetTuple { names, value, span } => expr_atoms(cx, value),
    }
}

pub open spec fn if_atoms(cx: CtxView, i: IfStmt) -> Seq<Atom>
    decreases i, 0nat,
{
    expr_atoms(cx, i.cond) + block_atoms(cx, i.then_block) + else_atoms(cx, i.else_branch)
}

pub open spec fn else_atoms(cx: CtxView, e: ElseBranch) -> Seq<Atom>
    decreases e, 0nat,
{
    match e {
        ElseBranch::Absent => Seq::empty(),
        ElseBranch::Block(b) => block_atoms(cx, b),
        ElseBranch::If(i) => if_atoms(cx, *i),
    }
}

pub open spec fn exprs_atoms(cx: CtxView, s: Seq<Expr>, n: nat) -> Seq<Atom>
    decreases s, n,
    when n <= s.len()
{
    if n == 0 {
        Seq::empty()
    } else {
        exprs_atoms(cx, s, (n - 1) as nat) + expr_atoms(cx, s[n - 1])
    }
}

pub open spec fn fields_atoms(cx: CtxView, s: Seq<(String, Expr)>, n: nat) -> Seq<Atom>
    decreases s, n,
    when n <= s.len()
{
    if n == 0 {
        Seq::empty()
    } else {
        fields_atoms(cx, s, (n - 1) as nat) + expr_atoms(cx, s[n - 1].1)
    }
}

pub open spec fn pairs_atoms(cx: CtxView, s: Seq<(Expr, Expr)>, n: nat) -> Seq<Atom>
    decreases s, n,
    when n <= s.len()
{
    if n == 0 {
        Seq::empty()
    } else {
        pairs_atoms(cx, s, (n - 1) as nat) + expr_atoms(cx, s[n - 1].0) + expr_atoms(cx, s[n - 1].1)
    }
}

pub open spec fn arms_atoms(cx: CtxView, s: Seq<MatchArm>, n: nat) -> Seq<Atom>
    decreases s, n,
    when n <= s.len()
{
    if n == 0 {
        Seq::empty()
    } else {
        arms_atoms(cx, s, (n - 1) as nat) + expr_atoms(cx, s[n - 1].body)
    }
}

pub open spec fn clauses_atoms(cx: CtxView, s: Seq<CompClause>, n: nat) -> Seq<Atom>
    decreases s, n,
    when n <= s.len()
{
    if n == 0 {
        Seq::empty()
    } else {
        clauses_atoms(cx, s, (n - 1) as nat) + match s[n - 1] {
            CompClause::For { var, iter } => expr_atoms(cx, iter),
            CompClause::If(cond) => expr_atoms(cx, cond),
        }
    }
}

/// Everything that evaluating an expression does.
pub open spec fn expr_atoms(cx: CtxView, e: Expr) -> Seq<Atom>
    decreases e, 0nat,
{
    match e.kind {
        ExprKind::Int(_)
        | ExprKind::UInt(_)
        | ExprKind::Float(_)
        | ExprKind::JsonNull
        | ExprKind::I32(_)
        | ExprKind::U32(_)
        | ExprKind::U64(_)
        | ExprKind::U128(_)
        | ExprKind::Bool(_)
        | ExprKind::Str(_)
        | ExprKind::Prev => Seq::empty(),
        ExprKind::JsonObject(fs) => fields_atoms(cx, fs@, fs@.len()),
        ExprKind::JsonArray(es) => exprs_atoms(cx, es@, es@.len()),
        ExprKind::Ident(name) => if is_state(cx.module, name@) {
            seq![Atom::Known(EffectClass::ReadOnly)]
        } else {
            Seq::empty()
        },
        ExprKind::Binary { op, lhs, rhs } => expr_atoms(cx, *lhs) + expr_atoms(cx, *rhs),
        ExprKind::Unary { op, operand } => expr_atoms(cx, *operand),
        ExprKind::Index { target, key } => expr_atoms(cx, *target) + expr_atoms(cx, *key),
        ExprKind::Field { target, name } => expr_atoms(cx, *target),
        ExprKind::Array(es) => exprs_atoms(cx, es@, es@.len()),
        ExprKind::SetLit(es) => exprs_atoms(cx, es@, es@.len()),
        ExprKind::DictLit(ps) => pairs_atoms(cx, ps@, ps@.len()),
        ExprKind::ListComp { mapper, clauses } => clauses_atoms(cx, clauses@, clauses@.len())
            + expr_atoms(cx, *mapper),
        ExprKind::SetComp { mapper, clauses } => clauses_atoms(cx, clauses@, clauses@.len())
            + expr_atoms(cx, *mapper),
        ExprKind::DictComp { key, value, clauses } => clauses_atoms(cx, clauses@, clauses@.len())
            + expr_atoms(cx, *key) + expr_atoms(cx, *value),
        ExprKind::StructLit { name, fields } => fields_atoms(cx, fields@, fields@.len()),
        ExprKind::Pipe { head, step } => expr_atoms(cx, *head) + expr_atoms(cx, *step),
        ExprKind::DynCall { target_ident, method, args, method_is_view, method_is_pure } =>
            exprs_atoms(cx, args@, args@.len()) + seq![
            Atom::Known(dyn_class(cx, target_ident@, method@, method_is_view, method_is_pure)),
        ],
        ExprKind::Call { module, name, args } => exprs_atoms(cx, args@, args@.len()) + match module {
            Some(m) => external_atoms(cx, m@, name@),
            None => call_atoms(cx, name@),
        },
        ExprKind::TupleLit(es) => exprs_atoms(cx, es@, es@.len()),
        ExprKind::TupleIndex { target, index } => expr_atoms(cx, *target),
        ExprKind::EnumCtor { enum_name, variant, args } => exprs_atoms(cx, args@, args@.len()),
        ExprKind::Match { scrut, arms } => expr_atoms(cx, *scrut) + arms_atoms(
            cx,
            arms@,
            arms@.len(),
        ),
        ExprKind::Block(b) => block_atoms(cx, b),
        ExprKind::If { cond, then_block, else_branch } => expr_atoms(cx, *cond) + block_atoms(cx, then_block)
            + else_atoms(cx, else_branch),
    }
}

fn join_in(acc: &mut EffectClass, c: EffectClass, locals: &Vec<EffectClass>)
    ensures
        *final(acc) == total(*old(acc), seq![Atom::Known(c)], locals@),
{
    reveal_with_fuel(total, 2);
    assert(seq![Atom::Known(c)].drop_last() =~= Seq::empty());
    *acc = acc.join(c);
}

fn target_is_state(target: &Expr, cx: &Ctx) -> (r: bool)
    ensures
        r == writes_state(cx@, *target),
    decreases target,
{
    match &target.kind {
        ExprKind::Ident(name) => find_last(&cx.module.states, name.as_str()).is_some(),
        ExprKind::Index { target: t, key: _ } => target_is_state(t, cx),
        ExprKind::Field { target: t, name: _ } => target_is_state(t, cx),
        _ => false,
    }
}

fn classify_write(target: &Expr, acc: &mut EffectClass, cx: &Ctx, locals: &Vec<EffectClass>)
    ensures
        *final(acc) == total(*old(acc), write_atoms(cx@, *target), locals@),
{
    if target_is_state(target, cx) {
        join_in(acc, EffectClass::WriteOnly, locals);
    }
}

fn classify_target(target: &Expr, acc: &mut EffectClass, cx: &Ctx, locals: &Vec<EffectClass>)
    requires
        locals@.len() == cx.module.functions@.len(),
    ensures
        *final(acc) == total(*old(acc), target_atoms(cx@, *target), locals@),
    decreases target, 0nat,
{
    let ghost a0 = *acc;
    match &target.kind {
        ExprKind::Index { target: t, key } => {
            classify_target(t, acc, cx, locals);
            classify_expr(key, acc, cx, locals);
            proof {
                lemma_total_split(a0, target_atoms(cx@, **t), expr_atoms(cx@, **key), locals@);
            }
        },
        ExprKind::Field { target: t, name: _ } => classify_target(t, acc, cx, locals),
        _ => {},
    }
}

fn classify_block(b: &Block, acc: &mut EffectClass, cx: &Ctx, locals: &Vec<EffectClass>)
    requires
        locals@.len() == cx.module.functions@.len(),
    ensures
        *final(acc) == total(*old(acc), block_atoms(cx@, *b), locals@),
    decreases b, 0nat,
{
    let ghost a0 = *acc;
    classify_stmts(&b.stmts, acc, cx, locals);
    let ghost x = stmts_atoms(cx@, b.stmts@, b.stmts@.len());
    match &b.tail {
        Some(t) => {
            classify_expr(t, acc, cx, locals);
            proof {
                lemma_total_split(a0, x, expr_atoms(cx@, **t), locals@);
            }
        },
        None => {
            assert(x + Seq::<Atom>::empty() =~= x);
        },
    }
}

#[verifier::loop_isolation(false)]
fn classify_stmts(v: &Vec<Stmt>, acc: &mut EffectClass, cx: &Ctx, locals: &Vec<EffectClass>)
    requires
        locals@.len() == cx.module.functions@.len(),
    ensures
        *final(acc) == total(*old(acc), stmts_atoms(cx@, v@, v@.len()), locals@),
    decreases v, 0nat,
{
    let ghost a0 = *acc;
    let mut i: usize = 0;
    while i < v.len()
        invariant
            i <= v@.len(),
            *acc == total(a0, stmts_atoms(cx@, v@, i as nat), locals@),
        decreases v@.len() - i,
    {
        let ghost x = stmts_atoms(cx@, v@, i as nat);
        classify_stmt(&v[i], acc, cx, locals);
        proof {
            lemma_total_split(a0, x, stmt_atoms(cx@, v@[i as int]), locals@);
        }
        i = i + 1;
    }
}

#[verifier::loop_isolation(false)]
fn classify_exprs(v: &Vec<Expr>, acc: &mut EffectClass, cx: &Ctx, locals: &Vec<EffectClass>)
    requires
        locals@.len() == cx.module.functions@.len(),
    ensures
        *final(acc) == total(*old(acc), exprs_atoms(cx@, v@, v@.len()), locals@),
    decreases v, 0nat,
{
    let ghost a0 = *acc;
    let mut i: usize = 0;
    while i < v.len()
        invariant
            i <= v@.len(),
            *acc == total(a0, exprs_atoms(cx@, v@, i as nat), locals@),
        decreases v@.len() - i,
    {
        let ghost x = exprs_atoms(cx@, v@, i as nat);
        classify_expr(&v[i], acc, cx, locals);
        proof {
            lemma_total_split(a0, x, expr_atoms(cx@, v@[i as int]), locals@);
        }
        i = i + 1;
    }
}

#[verifier::loop_isolation(false)]
fn classify_fields(v: &Vec<(String, Expr)>, acc: &mut EffectClass, cx: &Ctx, locals: &Vec<EffectClass>)
    requires
        locals@.len() == cx.module.functions@.len(),
    ensures
        *final(acc) == total(*old(acc), fields_atoms(cx@, v@, v@.len()), locals@),
    decreases v, 0nat,
{
    let ghost a0 = *acc;
    let mut i: usize = 0;
    while i < v.len()
        invariant
            i <= v@.len(),
            *acc == total(a0, fields_atoms(cx@, v@, i as nat), locals@),
        decreases v@.len() - i,
    {
        let ghost x = fields_atoms(cx@, v@, i as nat);
        classify_expr(&v[i].1, acc, cx, locals);
        proof {
            lemma_total_split(a0, x, expr_atoms(cx@, v@[i as int].1), locals@);
        }
        i = i + 1;
    }
}

#[verifier::loop_isolation(false)]
fn classify_pairs(v: &Vec<(Expr, Expr)>, acc: &mut EffectClass, cx: &Ctx, locals: &Vec<EffectClass>)
    requires
        locals@.len() == cx.module.functions@.len(),
    ensures
        *final(acc) == total(*old(acc), pairs_atoms(cx@, v@, v@.len()), locals@),
    decreases v, 0nat,
{
    let ghost a0 = *acc;
    let mut i: usize = 0;
    while i < v.len()
        invariant
            i <= v@.len(),
            *acc == total(a0, pairs_atoms(cx@, v@, i as nat), locals@),
        decreases v@.len() - i,
    {
        let ghost x = pairs_atoms(cx@, v@, i as nat);
        classify_expr(&v[i].0, acc, cx, locals);
        classify_expr(&v[i].1, acc, cx, locals);
        proof {
            let y = expr_atoms(cx@, v@[i as int].0);
            lemma_total_split(a0, x, y, locals@);
            lemma_total_split(a0, x + y, expr_atoms(cx@, v@[i as int].1), locals@);
        }
        i = i + 1;
    }
}

#[verifier::loop_isolation(false)]
fn classify_arms(v: &Vec<MatchArm>, acc: &mut EffectClass, cx: &Ctx, locals: &Vec<EffectClass>)
    requires
        locals@.len() == cx.module.functions@.len(),
    ensures
        *final(acc) == total(*old(acc), arms_atoms(cx@, v@, v@.len()), locals@),
    decreases v, 0nat,
{
    let ghost a0 = *acc;
    let mut i: usize = 0;
    while i < v.len()
        invariant
            i <= v@.len(),
            *acc == total(a0, arms_atoms(cx@, v@, i as nat), locals@),
        decreases v@.len() - i,
    {
        let ghost x = arms_atoms(cx@, v@, i as nat);
        classify_expr(&v[i].body, acc, cx, locals);
        proof {
            lemma_total_split(a0, x, expr_atoms(cx@, v@[i as int].body), locals@);
        }
        i = i + 1;
    }
}

#[verifier::loop_isolation(false)]
fn classify_clauses(v: &Vec<CompClause>, acc: &mut EffectClass, cx: &Ctx, locals: &Vec<EffectClass>)
    requires
        locals@.len() == cx.module.functions@.len(),
    ensures
        *final(acc) == total(*old(acc), clauses_atoms(cx@, v@, v@.len()), locals@),
    decreases v, 0nat,
{
    let ghost a0 = *acc;
    let mut i: usize = 0;
    while i < v.len()
        invariant
            i <= v@.len(),
            *acc == total(a0, clauses_atoms(cx@, v@, i as nat), locals@),
        decreases v@.len() - i,
    {
        let ghost x = clauses_atoms(cx@, v@, i as nat);
        match &v[i] {
            CompClause::For { var: _, iter } => {
                classify_expr(iter, acc, cx, locals);
                proof {
                    lemma_total_split(a0, x, expr_atoms(cx@, *iter), locals@);
                }
            },
            CompClause::If(cond) => {
                classify_expr(cond, acc, cx, locals);
                proof {
                    lemma_total_split(a0, x, expr_atoms(cx@, *cond), locals@);
                }
            },
        }
        i = i + 1;
    }
}

#[verifier::rlimit(30)]
fn classify_stmt(s: &Stmt, acc: &mut EffectClass, cx: &Ctx, locals: &Vec<EffectClass>)
    requires
        locals@.len() == cx.module.functions@.len(),
    ensures
        *final(acc) == total(*old(acc), stmt_atoms(cx@, *s), locals@),
    decreases s, 0nat,
{
    let ghost a0 = *acc;
    let ghost l = locals@;
    match s {
        Stmt::Let { name: _, ty: _, value, span: _ } => classify_expr(value, acc, cx, locals),
        Stmt::Assign { target, value, span: _ } => {
            classify_write(target, acc, cx, locals);
            classify_target(target, acc, cx, locals);
            classify_expr(value, acc, cx, locals);
            proof {
                let x = write_atoms(cx@, *target);
                let y = target_atoms(cx@, *target);
                lemma_total_split(a0, x, y, l);
                lemma_total_split(a0, x + y, expr_atoms(cx@, *value), l);
            }
        },
        Stmt::Return { value, span: _ } => match value {
            Some(e) => classify_expr(e, acc, cx, locals),
            None => {},
        },
        Stmt::If(i) => classify_if(i, acc, cx, locals),
        Stmt::While { cond, body, span: _ } => {
            classify_expr(cond, acc, cx, locals);
            classify_block(body, acc, cx, locals);
            proof {
                lemma_total_split(a0, expr_atoms(cx@, *cond), block_atoms(cx@, *body), l);
            }
        },
        Stmt::For { var: _, iter, body, span: _ } => {
            classify_expr(iter, acc, cx, locals);
            classify_block(body, acc, cx, locals);
            proof {
                lemma_total_split(a0, expr_atoms(cx@, *iter), block_atoms(cx@, *body), l);
            }
        },
        Stmt::ForRange { var: _, start, end, inclusive: _, body, span: _ } => {
            classify_expr(start, acc, cx, locals);
            classify_expr(end, acc, cx, locals);
            classify_block(body, acc, cx, locals);
            proof {
                let x = expr_atoms(cx@, *start);
                let y = expr_atoms(cx@, *end);
                lemma_total_split(a0, x, y, l);
                lemma_total_split(a0, x + y, block_atoms(cx@, *body), l);
            }
        },
        Stmt::Break(_) | Stmt::Continue(_) | Stmt::Placeholder(_) => {},
        Stmt::Expr(e) => classify_expr(e, acc, cx, locals),
        Stmt::Parallel { stmts, span: _ } => classify_stmts(stmts, acc, cx, locals),
        Stmt::ParallelForTo { id_var: _, source, output, body, span: _ } => {
            classify_write(output, acc, cx, locals);
            classify_target(output, acc, cx, locals);
            classify_expr(source, acc, cx, locals);
            classify_block(body, acc, cx, locals);
            proof {
                let x = write_atoms(cx@, *output);
                let y = target_atoms(cx@, *output);
                let z = expr_atoms(cx@, *source);
                lemma_total_split(a0, x, y, l);
                lemma_total_split(a0, x + y, z, l);
                lemma_total_split(a0, x + y + z, block_atoms(cx@, *body), l);
            }
        },
        Stmt::Delete { target, span: _ } => {
            join_in(acc, EffectClass::WriteOnly, locals);
            classify_expr(target, acc, cx, locals);
            proof {
                lemma_total_split(
                    a0,
                    seq![Atom::Known(EffectClass::WriteOnly)],
                    expr_atoms(cx@, *target),
                    l,
                );
            }
        },
        Stmt::Emit { value, span: _ } => {
            join_in(acc, EffectClass::WriteOnly, locals);
            classify_expr(value, acc, cx, locals);
            proof {
                lemma_total_split(
                    a0,
                    seq![Atom::Known(EffectClass::WriteOnly)],
                    expr_atoms(cx@, **value),
                    l,
                );
            }
        },
        Stmt::LetTuple { names: _, value, span: _ } => classify_expr(value, acc, cx, locals),
    }
}

fn classify_if(i: &IfStmt, acc: &mut EffectClass, cx: &Ctx, locals: &Vec<EffectClass>)
    requires
        locals@.len() == cx.module.functions@.len(),
    ensures
        *final(acc) == total(*old(acc), if_atoms(cx@, *i), locals@),
    decreases i, 0nat,
{
    let ghost a0 = *acc;
    classify_expr(&i.cond, acc, cx, locals);
    classify_block(&i.then_block, acc, cx, locals);
    classify_else(&i.else_branch, acc, cx, locals);
    proof {
        let x = expr_atoms(cx@, i.cond);
        let y = block_atoms(cx@, i.then_block);
        lemma_total_split(a0, x, y, locals@);
        lemma_total_split(a0, x + y, else_atoms(cx@, i.else_branch), locals@);
    }
}

fn classify_else(e: &ElseBranch, acc: &mut EffectClass, cx: &Ctx, locals: &Vec<EffectClass>)
    requires
        locals@.len() == cx.module.functions@.len(),
    ensures
        *final(acc) == total(*old(acc), else_atoms(cx@, *e), locals@),
    decreases e, 0nat,
{
    match e {
        ElseBranch::Absent => {},
        ElseBranch::Block(b) => classify_block(b, acc, cx, locals),
        ElseBranch::If(i) => classify_if(i, acc, cx, locals),
    }
}

fn class_of_method(methods: &Vec<InterfaceMethodSig>, name: &str) -> (r: EffectClass)
    ensures
        r == method_class(methods@, name@),
{
    match find_first(methods, name) {
        Some(k) => if methods[k].is_pure {
            EffectClass::Pure
        } else if methods[k].is_view {
            EffectClass::ReadOnly
        } else {
            EffectClass::Impure
        },
        None => EffectClass::Impure,
    }
}

fn class_of_dyn(cx: &Ctx, target: &str, method: &str, is_view: bool, is_pure: bool) -> (r: EffectClass)
    ensures
        r == dyn_class(cx@, target@, method@, is_view, is_pure),
{
    if is_pure {
        EffectClass::Pure
    } else if is_view {
        EffectClass::ReadOnly
    } else {
        match find_last(&cx.module.states, target) {
            Some(k) => match &cx.module.states[k].ty {
                Type::Interface { name: _, methods } => class_of_method(methods, method),
                _ => EffectClass::Impure,
            },
            None => EffectClass::Impure,
        }
    }
}

fn classify_external(module: &str, name: &str, acc: &mut EffectClass, cx: &Ctx, locals: &Vec<EffectClass>)
    ensures
        *final(acc) == total(*old(acc), external_atoms(cx@, module@, name@), locals@),
{
    if same(name, "bind") && (find_last(&cx.module.interfaces, module).is_some() || find_last(
        cx.ifaces,
        module,
    ).is_some()) {
        return;
    }
    let key = concat3(module, "::", name);
    proof {
        lemma_class_map(cx.externals@, key@);
    }
    match find_last(cx.externals, key.as_str()) {
        Some(k) => join_in(acc, cx.externals[k].1, locals),
        None => join_in(acc, EffectClass::Impure, locals),
    }
}

fn classify_call(name: &str, acc: &mut EffectClass, cx: &Ctx, locals: &Vec<EffectClass>)
    requires
        locals@.len() == cx.module.functions@.len(),
    ensures
        *final(acc) == total(*old(acc), call_atoms(cx@, name@), locals@),
{
    if is_pure_builtin(name) {
        return;
    }
    if is_state_reading_builtin(name) {
        join_in(acc, EffectClass::ReadOnly, locals);
        return;
    }
    if find_last(&cx.module.imports, name).is_some() {
        join_in(acc, EffectClass::Impure, locals);
        return;
    }
    match find_last(&cx.module.functions, name) {
        Some(k) => {
            proof {
                reveal_with_fuel(total, 2);
                assert(seq![Atom::Local(k as int)].drop_last() =~= Seq::empty());
            }
            *acc = acc.join(locals[k]);
        },
        None => join_in(acc, EffectClass::Impure, locals),
    }
}

/// Joins what evaluating an expression does into `acc`.
#[verifier::rlimit(60)]
fn classify_expr(e: &Expr, acc: &mut EffectClass, cx: &Ctx, locals: &Vec<EffectClass>)
    requires
        locals@.len() == cx.module.functions@.len(),
    ensures
        *final(acc) == total(*old(acc), expr_atoms(cx@, *e), locals@),
    decreases e, 0nat,
{
    let ghost a0 = *acc;
    let ghost l = locals@;
    match &e.kind {
        ExprKind::Int(_)
        | ExprKind::UInt(_)
        | ExprKind::Float(_)
        | ExprKind::JsonNull
        | ExprKind::I32(_)
        | ExprKind::U32(_)
        | ExprKind::U64(_)
        | ExprKind::U128(_)
        | ExprKind::Bool(_)
        | ExprKind::Str(_)
        | ExprKind::Prev => {},
        ExprKind::JsonObject(fs) => classify_fields(fs, acc, cx, locals),
        ExprKind::JsonArray(es) => classify_exprs(es, acc, cx, locals),
        ExprKind::Ident(name) => {
            if find_last(&cx.module.states, name.as_str()).is_some() {
                join_in(acc, EffectClass::ReadOnly, locals);
            }
        },
        ExprKind::Binary { op: _, lhs, rhs } => {
            classify_expr(lhs, acc, cx, locals);
            classify_expr(rhs, acc, cx, locals);
            proof {
                lemma_total_split(a0, expr_atoms(cx@, **lhs), expr_atoms(cx@, **rhs), l);
            }
        },
        ExprKind::Unary { op: _, operand } => classify_expr(operand, acc, cx, locals),
        ExprKind::Index { target, key } => {
            classify_expr(target, acc, cx, locals);
            classify_expr(key, acc, cx, locals);
            proof {
                lemma_total_split(a0, expr_atoms(cx@, **target), expr_atoms(cx@, **key), l);
            }
        },
        ExprKind::Field { target, name: _ } => classify_expr(target, acc, cx, locals),
        ExprKind::Array(es) => classify_exprs(es, acc, cx, locals),
        ExprKind::SetLit(es) => classify_exprs(es, acc, cx, locals),
        ExprKind::DictLit(ps) => classify_pairs(ps, acc, cx, locals),
        ExprKind::ListComp { mapper, clauses } => {
            classify_clauses(clauses, acc, cx, locals);
            classify_expr(mapper, acc, cx, locals);
            proof {
                let x = clauses_atoms(cx@, clauses@, clauses@.len());
                lemma_total_split(a0, x, expr_atoms(cx@, **mapper), l);
            }
        },
        ExprKind::SetComp { mapper, clauses } => {
            classify_clauses(clauses, acc, cx, locals);
            classify_expr(mapper, acc, cx, locals);
            proof {
                let x = clauses_atoms(cx@, clauses@, clauses@.len());
                lemma_total_split(a0, x, expr_atoms(cx@, **mapper), l);
            }
        },
        ExprKind::DictComp { key, value, clauses } => {
            classify_clauses(clauses, acc, cx, locals);
            classify_expr(key, acc, cx, locals);
            classify_expr(value, acc, cx, locals);
            proof {
                let x = clauses_atoms(cx@, clauses@, clauses@.len());
                let y = expr_atoms(cx@, **key);
                lemma_total_split(a0, x, y, l);
                lemma_total_split(a0, x + y, expr_atoms(cx@, **value), l);
            }
        },
        ExprKind::StructLit { name: _, fields } => classify_fields(fields, acc, cx, locals),
        ExprKind::Pipe { head, step } => {
            classify_expr(head, acc, cx, locals);
            classify_expr(step, acc, cx, locals);
            proof {
                lemma_total_split(a0, expr_atoms(cx@, **head), expr_atoms(cx@, **step), l);
            }
        },
        ExprKind::DynCall { target_ident, method, args, method_is_view, method_is_pure } => {
            classify_exprs(args, acc, cx, locals);
            let c = class_of_dyn(
                cx,
                target_ident.as_str(),
                method.as_str(),
                *method_is_view,
                *method_is_pure,
            );
            join_in(acc, c, locals);
            proof {
                let x = exprs_atoms(cx@, args@, args@.len());
                lemma_total_split(a0, x, seq![Atom::Known(c)], l);
            }
        },
        ExprKind::Call { module, name, args } => {
            classify_exprs(args, acc, cx, locals);
            let ghost x = exprs_atoms(cx@, args@, args@.len());
            match module {
                Some(m) => {
                    classify_external(m.as_str(), name.as_str(), acc, cx, locals);
                    proof {
                        lemma_total_split(a0, x, external_atoms(cx@, m@, name@), l);
                    }
                },
                None => {
                    classify_call(name.as_str(), acc, cx, locals);
                    proof {
                        lemma_total_split(a0, x, call_atoms(cx@, name@), l);
                    }
                },
            }
        },
        ExprKind::TupleLit(es) => classify_exprs(es, acc, cx, locals),
        ExprKind::TupleIndex { target, index: _ } => classify_expr(target, acc, cx, locals),
        ExprKind::EnumCtor { enum_name: _, variant: _, args } => classify_exprs(args, acc, cx, locals),
        ExprKind::Match { scrut, arms } => {
            classify_expr(scrut, acc, cx, locals);
            classify_arms(arms, acc, cx, locals);
            proof {
                let y = arms_atoms(cx@, arms@, arms@.len());
                lemma_total_split(a0, expr_atoms(cx@, **scrut), y, l);
            }
        },
        ExprKind::Block(b) => classify_block(b, acc, cx, locals),
        ExprKind::If { cond, then_block, else_branch } => {
            classify_expr(cond, acc, cx, locals);
            classify_block(then_block, acc, cx, locals);
            classify_else(else_branch, acc, cx, locals);
            proof {
                let x = expr_atoms(cx@, **cond);
                let y = block_atoms(cx@, *then_block);
                lemma_total_split(a0, x, y, l);
                lemma_total_split(a0, x + y, else_atoms(cx@, *else_branch), l);
            }
        },
    }
}

/// The class of the `k`-th function, given classes for the functions it calls.
pub open spec fn fn_class(cx: CtxView, k: int, locals: Seq<EffectClass>) -> EffectClass {
    total(EffectClass::Pure, block_atoms(cx, cx.module.functions@[k].body), locals)
}

/// Whether a list of classes is closed: each function has the class of its body.
pub open spec fn closed_under_calls(cx: CtxView, s: Seq<EffectClass>) -> bool {
    s.len() == cx.module.functions@.len() && forall|k: int|
        0 <= k < s.len() ==> #[trigger] s[k] == fn_class(cx, k, s)
}

/// Whether a list of classes is closed, and no closed list is below it.
pub open spec fn least_closed(cx: CtxView, s: Seq<EffectClass>) -> bool {
    closed_under_calls(cx, s) && forall|t: Seq<EffectClass>|
        #[trigger] closed_under_calls(cx, t) ==> all_cover(t, s)
}

/// There is only one least closed list.
pub proof fn least_closed_is_unique(cx: CtxView, s: Seq<EffectClass>, t: Seq<EffectClass>)
    requires
        least_closed(cx, s),
        least_closed(cx, t),
    ensures
        s == t,
{
    assert forall|k: int| 0 <= k < s.len() implies s[k] == t[k] by {
        assert(covers(t[k], s[k]));
        assert(covers(s[k], t[k]));
        join_is_a_semilattice(s[k], t[k], s[k]);
    }
    assert(s =~= t);
}

fn classify_fn(f: &FnDef, cx: &Ctx, locals: &Vec<EffectClass>) -> (r: EffectClass)
    requires
        locals@.len() == cx.module.functions@.len(),
    ensures
        r == total(EffectClass::Pure, block_atoms(cx@, f.body), locals@),
{
    let mut acc: EffectClass = EffectClass::Pure;
    classify_block(&f.body, &mut acc, cx, locals);
    acc
}

/// How far a list of classes can still be raised.
pub open spec fn slack(s: Seq<EffectClass>) -> nat
    decreases s.len(),
{
    if s.len() == 0 {
        0
    } else {
        slack(s.drop_last()) + (3 - height(s.last())) as nat
    }
}

proof fn lemma_slack_drops(s: Seq<EffectClass>, k: int, c: EffectClass)
    requires
        0 <= k < s.len(),
        covers(c, s[k]),
        c != s[k],
    ensures
        slack(s.update(k, c)) < slack(s),
    decreases s.len(),
{
    if k == s.len() - 1 {
        assert(s.update(k, c).drop_last() =~= s.drop_last());
    } else {
        lemma_slack_drops(s.drop_last(), k, c);
        assert(s.update(k, c).drop_last() =~= s.drop_last().update(k, c));
    }
}

/// The state of the iteration: no class is above what a closed list allows, and
/// none is above the class of its body.
spec fn rising(cx: CtxView, s: Seq<EffectClass>) -> bool {
    &&& s.len() == cx.module.functions@.len()
    &&& forall|k: int| 0 <= k < s.len() ==> covers(fn_class(cx, k, s), #[trigger] s[k])
    &&& forall|t: Seq<EffectClass>| #[trigger] closed_under_calls(cx, t) ==> all_cover(t, s)
}

#[verifier::spinoff_prover]
#[verifier::rlimit(60)]
proof fn lemma_raise(cx: CtxView, s: Seq<EffectClass>, k: int)
    requires
        rising(cx, s),
        0 <= k < s.len(),
    ensures
        rising(cx, s.update(k, fn_class(cx, k, s))),
        covers(fn_class(cx, k, s), s[k]),
{
    let c = fn_class(cx, k, s);
    let u = s.update(k, c);
    assert(covers(c, s[k]));
    assert(all_cover(u, s)) by {
        assert forall|i: int| 0 <= i < s.len() implies covers(#[trigger] u[i], s[i]) by {
            join_is_a_semilattice(s[i], s[i], s[i]);
        }
    }
    assert forall|i: int| 0 <= i < u.len() implies covers(fn_class(cx, i, u), #[trigger] u[i]) by {
        lemma_total_mono(block_atoms(cx, cx.module.functions@[i].body), s, u);
        assert(covers(fn_class(cx, i, u), fn_class(cx, i, s)));
        assert(covers(fn_class(cx, i, s), s[i]));
    }
    assert forall|t: Seq<EffectClass>| #[trigger] closed_under_calls(cx, t) implies all_cover(t, u) by {
        assert(all_cover(t, s));
        lemma_total_mono(block_atoms(cx, cx.module.functions@[k].body), s, t);
        assert(t[k] == fn_class(cx, k, t));
        assert forall|i: int| 0 <= i < u.len() implies covers(#[trigger] t[i], u[i]) by {
            assert(covers(t[i], s[i]));
        }
    }
}

/// The classes of the module's functions, in order.
fn solve(cx: &Ctx) -> (r: Vec<EffectClass>)
    ensures
        least_closed(cx@, r@),
{
    let n: usize = cx.module.functions.len();
    let mut s: Vec<EffectClass> = Vec::new();
    while s.len() < n
        invariant
            s@.len() <= n,
            forall|k: int| 0 <= k < s@.len() ==> #[trigger] s@[k] == EffectClass::Pure,
        decreases n - s@.len(),
    {
        s.push(EffectClass::Pure);
    }
    assert(rising(cx@, s@));
    let mut changed = true;
    while changed
        invariant
            n == cx.module.functions@.len(),
            rising(cx@, s@),
            !changed ==> closed_under_calls(cx@, s@),
        decreases slack(s@), (if changed { 1nat } else { 0nat }),
    {
        changed = false;
        let ghost start = s@;
        let mut k: usize = 0;
        while k < n
            invariant
                k <= n,
                n == cx.module.functions@.len(),
                rising(cx@, s@),
                slack(s@) <= slack(start),
                changed ==> slack(s@) < slack(start),
                !changed ==> forall|i: int| 0 <= i < k ==> #[trigger] s@[i] == fn_class(cx@, i, s@),
            decreases n - k,
        {
            let c = classify_fn(&cx.module.functions[k], cx, &s);
            proof {
                lemma_raise(cx@, s@, k as int);
                if c != s@[k as int] {
                    lemma_slack_drops(s@, k as int, c);
                }
            }
            if c != s[k] {
                s.set(k, c);
                changed = true;
            }
            k = k + 1;
        }
    }
    s
}

/// An atom of a list is covered by the class of the list.
proof fn lemma_total_covers(s: Seq<Atom>, i: int, locals: Seq<EffectClass>)
    requires
        0 <= i < s.len(),
    ensures
        covers(total(EffectClass::Pure, s, locals), atom_class(s[i], locals)),
    decreases s.len(),
{
    let before = total(EffectClass::Pure, s.drop_last(), locals);
    let last = atom_class(s.last(), locals);
    if i < s.len() - 1 {
        lemma_total_covers(s.drop_last(), i, locals);
        join_is_a_semilattice(before, last, joined(before, last));
        assert(s.drop_last()[i] == s[i]);
    } else {
        join_is_a_semilattice(last, before, before);
    }
}

/// The class of a function covers the class of every function that its body calls.
pub proof fn callers_cover_callees(cx: CtxView, s: Seq<EffectClass>, k: int, g: int)
    requires
        closed_under_calls(cx, s),
        0 <= k < s.len(),
        0 <= g < s.len(),
        block_atoms(cx, cx.module.functions@[k].body).contains(Atom::Local(g)),
    ensures
        covers(s[k], s[g]),
{
    let atoms = block_atoms(cx, cx.module.functions@[k].body);
    let i = choose|i: int| 0 <= i < atoms.len() && atoms[i] == Atom::Local(g);
    lemma_total_covers(atoms, i, s);
    assert(s[k] == fn_class(cx, k, s));
}

/// The class of a function covers everything that its body does by itself.
pub proof fn classes_cover_what_is_done(cx: CtxView, s: Seq<EffectClass>, k: int, c: EffectClass)
    requires
        closed_under_calls(cx, s),
        0 <= k < s.len(),
        block_atoms(cx, cx.module.functions@[k].body).contains(Atom::Known(c)),
    ensures
        covers(s[k], c),
{
    let atoms = block_atoms(cx, cx.module.functions@[k].body);
    let i = choose|i: int| 0 <= i < atoms.len() && atoms[i] == Atom::Known(c);
    lemma_total_covers(atoms, i, s);
    assert(s[k] == fn_class(cx, k, s));
}

/// The classes of the bodies, given classes for the functions that they call.
spec fn body_classes(cx: CtxView, s: Seq<EffectClass>) -> Seq<EffectClass> {
    Seq::new(s.len(), |k: int| fn_class(cx, k, s))
}

proof fn lemma_slack_covered(y: Seq<EffectClass>, x: Seq<EffectClass>)
    requires
        all_cover(y, x),
    ensures
        slack(y) <= slack(x) <= 3 * x.len(),
        x != y ==> slack(y) < slack(x),
    decreases x.len(),
{
    if x.len() > 0 {
        let n = x.len() - 1;
        assert forall|i: int| 0 <= i < n implies covers(#[trigger] y.drop_last()[i], x.drop_last()[i]) by {
            assert(covers(y[i], x[i]));
        }
        lemma_slack_covered(y.drop_last(), x.drop_last());
        assert(covers(y[n], x[n]));
        if x != y && x.drop_last() == y.drop_last() {
            assert(x.last() != y.last()) by {
                if x.last() == y.last() {
                    assert(x =~= x.drop_last().push(x.last()));
                    assert(y =~= y.drop_last().push(y.last()));
                }
            }
        }
    } else {
        assert(x =~= y);
    }
}

/// Below a list that covers the classes of its bodies there is a closed one.
proof fn lemma_closed_below(cx: CtxView, u: Seq<EffectClass>) -> (t: Seq<EffectClass>)
    requires
        u.len() == cx.module.functions@.len(),
        all_cover(u, body_classes(cx, u)),
    ensures
        closed_under_calls(cx, t),
        all_cover(u, t),
    decreases 3 * u.len() - slack(u),
{
    let v = body_classes(cx, u);
    lemma_slack_covered(u, v);
    if v == u {
        assert forall|k: int| 0 <= k < u.len() implies #[trigger] u[k] == fn_class(cx, k, u) by {
            assert(v[k] == fn_class(cx, k, u));
        }
        assert forall|k: int| 0 <= k < u.len() implies covers(#[trigger] u[k], u[k]) by {
            join_is_a_semilattice(u[k], u[k], u[k]);
        }
        u
    } else {
        assert forall|k: int| 0 <= k < v.len() implies covers(#[trigger] v[k], body_classes(cx, v)[k]) by {
            lemma_total_mono(block_atoms(cx, cx.module.functions@[k].body), v, u);
        }
        let t = lemma_closed_below(cx, v);
        assert forall|k: int| 0 <= k < u.len() implies covers(#[trigger] u[k], t[k]) by {
            assert(covers(u[k], v[k]));
            assert(covers(v[k], t[k]));
        }
        t
    }
}

/// Whether a function does nothing but what is pure and calls none but functions of
/// a set.
pub open spec fn pure_within(cx: CtxView, pures: Set<int>, k: int) -> bool {
    let atoms = block_atoms(cx, cx.module.functions@[k].body);
    forall|i: int|
        0 <= i < atoms.len() ==> match #[trigger] atoms[i] {
            Atom::Known(c) => c == EffectClass::Pure,
            Atom::Local(g) => 0 <= g < cx.module.functions@.len() && pures.contains(g),
        }
}

proof fn lemma_all_pure(s: Seq<Atom>, locals: Seq<EffectClass>)
    requires
        forall|i: int| 0 <= i < s.len() ==> atom_class(#[trigger] s[i], locals) == EffectClass::Pure,
    ensures
        total(EffectClass::Pure, s, locals) == EffectClass::Pure,
    decreases s.len(),
{
    if s.len() > 0 {
        assert forall|i: int| 0 <= i < s.len() - 1 implies atom_class(
            #[trigger] s.drop_last()[i],
            locals,
        ) == EffectClass::Pure by {
            assert(s.drop_last()[i] == s[i]);
        }
        lemma_all_pure(s.drop_last(), locals);
        assert(atom_class(s[s.len() - 1], locals) == EffectClass::Pure);
    }
}

/// Functions that do nothing of their own and call only one another are pure, even
/// where they call in a circle.
pub proof fn functions_without_effects_are_pure(cx: CtxView, s: Seq<EffectClass>, pures: Set<int>, k: int)
    requires
        least_closed(cx, s),
        0 <= k < s.len(),
        pures.contains(k),
        forall|j: int| 0 <= j < s.len() && pures.contains(j) ==> #[trigger] pure_within(cx, pures, j),
    ensures
        s[k] == EffectClass::Pure,
{
    let u = Seq::new(
        s.len(),
        |j: int|
            if pures.contains(j) {
                EffectClass::Pure
            } else {
                s[j]
            },
    );
    assert(all_cover(s, u)) by {
        assert forall|j: int| 0 <= j < s.len() implies covers(#[trigger] s[j], u[j]) by {
            join_is_a_semilattice(s[j], s[j], s[j]);
        }
    }
    assert forall|j: int| 0 <= j < u.len() implies covers(#[trigger] u[j], body_classes(cx, u)[j]) by {
        let atoms = block_atoms(cx, cx.module.functions@[j].body);
        if pures.contains(j) {
            assert(pure_within(cx, pures, j));
            assert forall|i: int| 0 <= i < atoms.len() implies atom_class(#[trigger] atoms[i], u)
                == EffectClass::Pure by {}
            lemma_all_pure(atoms, u);
        } else {
            lemma_total_mono(atoms, u, s);
            assert(s[j] == fn_class(cx, j, s));
        }
    }
    let t = lemma_closed_below(cx, u);
    assert(all_cover(t, s));
    assert(covers(t[k], s[k]));
    assert(covers(u[k], t[k]));
}

/// The classes of the functions of a module, by name.
#[derive(Debug)]
pub struct EffectTable {
    pub entries: Vec<(String, EffectClass)>,
}

impl EffectTable {
    /// The class of a function; a later function hides an earlier one of its name.
    pub open spec fn class(&self, name: Seq<char>) -> Option<EffectClass> {
        match place(self.entries@, name) {
            Some(k) => Some(self.entries@[k].1),
            None => None,
        }
    }

    pub fn get(&self, name: &str) -> (r: Option<EffectClass>)
        ensures
            r == self.class(name@),
    {
        match find_last(&self.entries, name) {
            Some(k) => Some(self.entries[k].1),
            None => None,
        }
    }
}

/// Whether a table gives each function of a module its class.
pub open spec fn classifies(cx: CtxView, t: EffectTable) -> bool {
    let s = Seq::new(t.entries@.len(), |k: int| t.entries@[k].1);
    &&& t.entries@.len() == cx.module.functions@.len()
    &&& forall|k: int|
        0 <= k < t.entries@.len() ==> (#[trigger] t.entries@[k]).0@ == cx.module.functions@[k].name@
    &&& least_closed(cx, s)
}

proof fn lemma_entry_place(s: Seq<(String, EffectClass)>, fns: Seq<FnDef>, name: Seq<char>)
    requires
        s.len() == fns.len(),
        forall|k: int| 0 <= k < s.len() ==> (#[trigger] s[k]).0@ == fns[k].name@,
    ensures
        place(s, name) == place(fns, name),
        place(s, name) matches Some(k) ==> 0 <= k < s.len(),
    decreases s.len(),
{
    if s.len() > 0 {
        assert(s[s.len() - 1].0@ == fns[s.len() - 1].name@);
        assert forall|k: int| 0 <= k < s.len() - 1 implies (#[trigger] s.drop_last()[k]).0@
            == fns.drop_last()[k].name@ by {
            assert(s[k].0@ == fns[k].name@);
        }
        lemma_entry_place(s.drop_last(), fns.drop_last(), name);
    }
}

/// What a table of classes promises. It has a class for the functions of the module
/// and for nothing else; the class of a function covers those of the functions that
/// its body calls, in a circle too, and everything that its body does by itself; and
/// functions that do nothing of their own and call only one another are pure.
pub proof fn tables_keep_their_promises(
    cx: CtxView,
    t: EffectTable,
    caller: Seq<char>,
    callee: Seq<char>,
    pures: Set<int>,
)
    requires
        classifies(cx, t),
    ensures
        t.class(caller) is Some <==> place(cx.module.functions@, caller) is Some,
        place(cx.module.functions@, caller) matches Some(k) ==> {
            let done = block_atoms(cx, cx.module.functions@[k].body);
            &&& place(cx.module.functions@, callee) matches Some(g) ==> done.contains(Atom::Local(g)) ==> covers(
                t.class(caller)->0,
                t.class(callee)->0,
            )
            &&& forall|c: EffectClass| #[trigger] done.contains(Atom::Known(c)) ==> covers(t.class(caller)->0, c)
            &&& pures.contains(k) && (forall|j: int|
                0 <= j < cx.module.functions@.len() && pures.contains(j) ==> #[trigger] pure_within(cx, pures, j))
                ==> t.class(caller) == Some(EffectClass::Pure)
        },
{
    let fns = cx.module.functions@;
    let s = Seq::new(t.entries@.len(), |k: int| t.entries@[k].1);
    lemma_entry_place(t.entries@, fns, caller);
    lemma_entry_place(t.entries@, fns, callee);
    match place(fns, caller) {
        Some(k) => {
            let done = block_atoms(cx, fns[k].body);
            assert(s[k] == t.entries@[k].1);
            match place(fns, callee) {
                Some(g) => {
                    if done.contains(Atom::Local(g)) {
                        callers_cover_callees(cx, s, k, g);
                    }
                },
                None => {},
            }
            assert forall|c: EffectClass| #[trigger] done.contains(Atom::Known(c)) implies covers(
                t.class(caller)->0,
                c,
            ) by {
                classes_cover_what_is_done(cx, s, k, c);
            }
            if pures.contains(k) && (forall|j: int|
                0 <= j < fns.len() && pures.contains(j) ==> #[trigger] pure_within(cx, pures, j)) {
                functions_without_effects_are_pure(cx, s, pures, k);
            }
        },
        None => {},
    }
}

/// The classes of the functions of a module, where calls into other modules and
/// interface names may refer to what was declared elsewhere.
pub fn classify_with_externals_and_iface_names(
    module: &Module,
    externals: &Vec<(String, EffectClass)>,
    extra_iface_names: &Vec<String>,
) -> (r: EffectTable)
    ensures
        classifies(
            (CtxView {
                module: *module,
                externals: class_map(externals@),
                ifaces: name_set(extra_iface_names@),
            }),
            r,
        ),
{
    let cx = Ctx { module, externals, ifaces: extra_iface_names };
    let s = solve(&cx);
    let mut entries: Vec<(String, EffectClass)> = Vec::new();
    while entries.len() < s.len()
        invariant
            entries@.len() <= s@.len() == module.functions@.len(),
            forall|k: int|
                0 <= k < entries@.len() ==> (#[trigger] entries@[k]).0@ == module.functions@[k].name@
                    && entries@[k].1 == s@[k],
        decreases s@.len() - entries@.len(),
    {
        let k: usize = entries.len();
        entries.push((module.functions[k].name.clone(), s[k]));
    }
    let r = EffectTable { entries };
    assert(Seq::new(r.entries@.len(), |k: int| r.entries@[k].1) =~= s@);
    r
}

/// The classes of the functions of a module, where calls into other modules may
/// refer to what was declared elsewhere.
pub fn classify_with_externals(
    module: &Module,
    externals: &Vec<(String, EffectClass)>,
) -> (r: EffectTable)
    ensures
        classifies(
            (CtxView { module: *module, externals: class_map(externals@), ifaces: Set::empty() }),
            r,
        ),
{
    let none: Vec<String> = Vec::new();
    assert(name_set(none@) =~= Set::empty());
    classify_with_externals_and_iface_names(module, externals, &none)
}

/// The classes of the functions of a module.
pub fn classify(module: &Module) -> (r: EffectTable)
    ensures
        classifies(
            (CtxView { module: *module, externals: Map::empty(), ifaces: Set::empty() }),
            r,
        ),
{
    let no_ext: Vec<(String, EffectClass)> = Vec::new();
    let none: Vec<String> = Vec::new();
    assert(name_set(none@) =~= Set::empty());
    classify_with_externals_and_iface_names(module, &no_ext, &none)
}

/// The word for a class in messages.
pub open spec fn label(c: EffectClass) -> Seq<char> {
    match c {
        EffectClass::Pure => "pure"@,
        EffectClass::ReadOnly => "read-only"@,
        EffectClass::WriteOnly => "write-only"@,
        EffectClass::ReadWrite => "read+write"@,
        EffectClass::Impure => "impure (host imports or unknown effects)"@,
    }
}

fn effect_label(c: EffectClass) -> (r: &'static str)
    ensures
        r@ == label(c),
{
    match c {
        EffectClass::Pure => "pure",
        EffectClass::ReadOnly => "read-only",
        EffectClass::WriteOnly => "write-only",
        EffectClass::ReadWrite => "read+write",
        EffectClass::Impure => "impure (host imports or unknown effects)",
    }
}

/// The class a function counts as: that of the table, or the worst.
pub open spec fn actual_class(f: FnDef, effects: EffectTable) -> EffectClass {
    match effects.class(f.name@) {
        Some(c) => c,
        None => EffectClass::Impure,
    }
}

/// Whether a function keeps what its `pure` or `view` annotation promises.
pub open spec fn keeps_promise(f: FnDef, effects: EffectTable) -> bool {
    let c = actual_class(f, effects);
    if f.is_pure {
        c is Pure
    } else if f.is_view {
        c is Pure || c is ReadOnly
    } else {
        true
    }
}

/// The error about a broken promise.
pub open spec fn promise_error(f: FnDef, effects: EffectTable) -> ErrorView {
    ErrorView {
        kind: ErrorKind::Type,
        msg: "function '"@ + f.name@ + "' is declared `"@ + (if f.is_pure {
            "pure"@
        } else {
            "view"@
        }) + "` but its body is "@ + label(actual_class(f, effects)) + " (it must avoid "@ + (
        if f.is_pure {
            "all state access, host imports, and events"@
        } else {
            "state writes, host imports, and events"@
        }) + ")"@,
        span: f.span,
    }
}

/// Checks the `pure` and `view` annotations against the classes: the first
/// function that breaks its promise is reported.
#[verifier::rlimit(30)]
pub fn verify_purity_annotations(module: &Module, effects: &EffectTable) -> (r: Result<(), Error>)
    ensures
        match r {
            Ok(_) => forall|k: int|
                0 <= k < module.functions@.len() ==> keeps_promise(
                    #[trigger] module.functions@[k],
                    *effects,
                ),
            Err(e) => exists|k: int|
                0 <= k < module.functions@.len() && !keeps_promise(
                    #[trigger] module.functions@[k],
                    *effects,
                ) && e@ == promise_error(module.functions@[k], *effects) && forall|j: int|
                    0 <= j < k ==> keeps_promise(#[trigger] module.functions@[j], *effects),
        },
{
    let mut i: usize = 0;
    while i < module.functions.len()
        invariant
            i <= module.functions@.len(),
            forall|j: int|
                0 <= j < i ==> keeps_promise(#[trigger] module.functions@[j], *effects),
        decreases module.functions@.len() - i,
    {
        let f = &module.functions[i];
        let actual = match effects.get(f.name.as_str()) {
            Some(c) => c,
            None => EffectClass::Impure,
        };
        let allowed = if f.is_pure {
            actual == EffectClass::Pure
        } else if f.is_view {
            actual == EffectClass::Pure || actual == EffectClass::ReadOnly
        } else {
            true
        };
        if !allowed {
            let kw: &str = if f.is_pure { "pure" } else { "view" };
            let avoid: &str = if f.is_pure {
                "all state access, host imports, and events"
            } else {
                "state writes, host imports, and events"
            };
            let mut msg = concat3("function '", f.name.as_str(), "' is declared `");
            msg.append(kw);
            msg.append("` but its body is ");
            msg.append(effect_label(actual));
            msg.append(" (it must avoid ");
            msg.append(avoid);
            msg.append(")");
            let e = Error::new(ErrorKind::Type, msg, f.span);
            assert(e@ == promise_error(module.functions@[i as int], *effects));
            return Err(e);
        }
        i = i + 1;
    }
    Ok(())
}

} // verus!
