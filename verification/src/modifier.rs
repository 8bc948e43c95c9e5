//! Modifiers: wrappers around function bodies.
//!
//! A function that names modifiers has its body put in place of their `_;`,
//! wherever in them it stands, the leftmost modifier outermost, with the given arguments in place of the
//! modifiers' parameters.

use vstd::prelude::*;
use crate::ast::{
    Block, CompClause, ElseBranch, Expr, ExprKind, FnDef, IfStmt, MatchArm, ModifierDecl, Module,
    Param, Stmt,
};
use crate::copies::{copy_stmts, no_subst, put_stmts, subst_of, Subst};
use crate::error::{Error, ErrorKind, ErrorView};
use crate::tables::{find_last, lemma_place, place};
use crate::text::{concat3, decimal, push_decimal, same, text};
use crate::token::Span;

verus! {

pub open spec fn either(a: Option<Span>, b: Option<Span>) -> Option<Span> {
    match a {
        Some(_) => a,
        None => b,
    }
}

/// The first `_;` inside an expression.
pub open spec fn gap_expr(e: Expr) -> Option<Span>
    decreases e,
{
    match e.kind {
        ExprKind::Int(_) => None,
        ExprKind::UInt(_) => None,
        ExprKind::Float(_) => None,
        ExprKind::I32(_) => None,
        ExprKind::U32(_) => None,
        ExprKind::U64(_) => None,
        ExprKind::U128(_) => None,
        ExprKind::JsonObject(x0) => gap_fields(x0@, 0),
        ExprKind::JsonArray(x0) => gap_exprs(x0@, 0),
        ExprKind::JsonNull => None,
        ExprKind::Bool(_) => None,
        ExprKind::Str(_) => None,
        ExprKind::Ident(_) => None,
        ExprKind::Binary { lhs, rhs, .. } => either(gap_expr(*lhs), gap_expr(*rhs)),
        ExprKind::Unary { operand, .. } => gap_expr(*operand),
        ExprKind::Call { args, .. } => gap_exprs(args@, 0),
        ExprKind::DynCall { args, .. } => gap_exprs(args@, 0),
        ExprKind::Index { target, key,  } => either(gap_expr(*target), gap_expr(*key)),
        ExprKind::Array(x0) => gap_exprs(x0@, 0),
        ExprKind::StructLit { fields, .. } => gap_fields(fields@, 0),
        ExprKind::Field { target, .. } => gap_expr(*target),
        ExprKind::Pipe { head, step,  } => either(gap_expr(*head), gap_expr(*step)),
        ExprKind::Prev => None,
        ExprKind::ListComp { mapper, clauses,  } => either(gap_expr(*mapper), gap_clauses(clauses@, 0)),
        ExprKind::SetLit(x0) => gap_exprs(x0@, 0),
        ExprKind::SetComp { mapper, clauses,  } => either(gap_expr(*mapper), gap_clauses(clauses@, 0)),
        ExprKind::DictLit(x0) => gap_pairs(x0@, 0),
        ExprKind::DictComp { key, value, clauses,  } => either(
            gap_expr(*key),
            either(gap_expr(*value), gap_clauses(clauses@, 0)),
        ),
        ExprKind::TupleLit(x0) => gap_exprs(x0@, 0),
        ExprKind::TupleIndex { target, .. } => gap_expr(*target),
        ExprKind::EnumCtor { args, .. } => gap_exprs(args@, 0),
        ExprKind::Match { scrut, arms,  } => either(gap_expr(*scrut), gap_arms(arms@, 0)),
        ExprKind::Block(x0) => gap_block(x0),
        ExprKind::If { cond, then_block, else_branch,  } => either(
            gap_expr(*cond),
            either(gap_block(then_block), gap_else(else_branch)),
        ),
    }
}

pub open spec fn gap_opt(e: Option<Expr>) -> Option<Span>
    decreases e,
{
    match e {
        Some(x) => gap_expr(x),
        None => None,
    }
}

pub open spec fn gap_clause(c: CompClause) -> Option<Span>
    decreases c,
{
    match c {
        CompClause::For { var, iter } => gap_expr(iter),
        CompClause::If(e) => gap_expr(e),
    }
}

pub open spec fn gap_exprs(s: Seq<Expr>, i: nat) -> Option<Span>
    decreases s, s.len() - i,
{
    if i >= s.len() {
        None
    } else {
        either(gap_expr(s[i as int]), gap_exprs(s, i + 1))
    }
}

pub open spec fn gap_fields(s: Seq<(String, Expr)>, i: nat) -> Option<Span>
    decreases s, s.len() - i,
{
    if i >= s.len() {
        None
    } else {
        either(gap_expr(s[i as int].1), gap_fields(s, i + 1))
    }
}

pub open spec fn gap_pairs(s: Seq<(Expr, Expr)>, i: nat) -> Option<Span>
    decreases s, s.len() - i,
{
    if i >= s.len() {
        None
    } else {
        either(either(gap_expr(s[i as int].0), gap_expr(s[i as int].1)), gap_pairs(s, i + 1))
    }
}

pub open spec fn gap_clauses(s: Seq<CompClause>, i: nat) -> Option<Span>
    decreases s, s.len() - i,
{
    if i >= s.len() {
        None
    } else {
        either(gap_clause(s[i as int]), gap_clauses(s, i + 1))
    }
}

pub open spec fn gap_arms(s: Seq<MatchArm>, i: nat) -> Option<Span>
    decreases s, s.len() - i,
{
    if i >= s.len() {
        None
    } else {
        either(gap_expr(s[i as int].body), gap_arms(s, i + 1))
    }
}

pub open spec fn gap_stmts(s: Seq<Stmt>, i: nat) -> Option<Span>
    decreases s, s.len() - i,
{
    if i >= s.len() {
        None
    } else {
        either(gap_stmt(s[i as int]), gap_stmts(s, i + 1))
    }
}

pub open spec fn gap_block(b: Block) -> Option<Span>
    decreases b,
{
    either(gap_stmts(b.stmts@, 0), match b.tail {
        Some(t) => gap_expr(*t),
        None => None,
    })
}

pub open spec fn gap_if(i: IfStmt) -> Option<Span>
    decreases i,
{
    either(gap_expr(i.cond), either(gap_block(i.then_block), gap_else(i.else_branch)))
}

pub open spec fn gap_else(e: ElseBranch) -> Option<Span>
    decreases e,
{
    match e {
        ElseBranch::Absent => None,
        ElseBranch::Block(b) => gap_block(b),
        ElseBranch::If(i) => gap_if(*i),
    }
}

/// The first `_;` in a statement, in the order of the text.
pub open spec fn gap_stmt(s: Stmt) -> Option<Span>
    decreases s,
{
    match s {
        Stmt::Let { value, .. } => gap_expr(value),
        Stmt::Assign { target, value, .. } => either(gap_expr(target), gap_expr(value)),
        Stmt::Return { value, .. } => gap_opt(value),
        Stmt::If(x0) => gap_if(x0),
        Stmt::While { cond, body, .. } => either(gap_expr(cond), gap_block(body)),
        Stmt::For { iter, body, .. } => either(gap_expr(iter), gap_block(body)),
        Stmt::ForRange { start, end, body, .. } => either(gap_expr(start), either(gap_expr(end), gap_block(body))),
        Stmt::Break(_) => None,
        Stmt::Continue(_) => None,
        Stmt::Expr(x0) => gap_expr(x0),
        Stmt::Parallel { stmts, .. } => gap_stmts(stmts@, 0),
        Stmt::ParallelForTo { source, output, body, .. } => either(
            gap_expr(source),
            either(gap_expr(output), gap_block(body)),
        ),
        Stmt::Emit { value, .. } => gap_expr(*value),
        Stmt::Delete { target, .. } => gap_expr(target),
        Stmt::LetTuple { value, .. } => gap_expr(value),
        Stmt::Placeholder(span) => Some(span),
    }
}

#[verifier::rlimit(30)]
fn first_gap_expr(e: &Expr) -> (r: Option<Span>)
    ensures
        r == gap_expr(*e),
    decreases e,
{
    match &e.kind {
        ExprKind::Int(_) => None,
        ExprKind::UInt(_) => None,
        ExprKind::Float(_) => None,
        ExprKind::I32(_) => None,
        ExprKind::U32(_) => None,
        ExprKind::U64(_) => None,
        ExprKind::U128(_) => None,
        ExprKind::JsonObject(x0) => first_gap_fields(x0),
        ExprKind::JsonArray(x0) => first_gap_exprs(x0),
        ExprKind::JsonNull => None,
        ExprKind::Bool(_) => None,
        ExprKind::Str(_) => None,
        ExprKind::Ident(_) => None,
        ExprKind::Binary { lhs, rhs, .. } => match first_gap_expr(lhs) {
            Some(x) => Some(x),
            None => first_gap_expr(rhs),
        },
        ExprKind::Unary { operand, .. } => first_gap_expr(operand),
        ExprKind::Call { args, .. } => first_gap_exprs(args),
        ExprKind::DynCall { args, .. } => first_gap_exprs(args),
        ExprKind::Index { target, key,  } => match first_gap_expr(target) {
            Some(x) => Some(x),
            None => first_gap_expr(key),
        },
        ExprKind::Array(x0) => first_gap_exprs(x0),
        ExprKind::StructLit { fields, .. } => first_gap_fields(fields),
        ExprKind::Field { target, .. } => first_gap_expr(target),
        ExprKind::Pipe { head, step,  } => match first_gap_expr(head) {
            Some(x) => Some(x),
            None => first_gap_expr(step),
        },
        ExprKind::Prev => None,
        ExprKind::ListComp { mapper, clauses,  } => match first_gap_expr(mapper) {
            Some(x) => Some(x),
            None => first_gap_clauses(clauses),
        },
        ExprKind::SetLit(x0) => first_gap_exprs(x0),
        ExprKind::SetComp { mapper, clauses,  } => match first_gap_expr(mapper) {
            Some(x) => Some(x),
            None => first_gap_clauses(clauses),
        },
        ExprKind::DictLit(x0) => first_gap_pairs(x0),
        ExprKind::DictComp { key, value, clauses,  } => match first_gap_expr(key) {
            Some(x) => Some(x),
            None => match first_gap_expr(value) {
            Some(x) => Some(x),
            None => first_gap_clauses(clauses),
        },
        },
        ExprKind::TupleLit(x0) => first_gap_exprs(x0),
        ExprKind::TupleIndex { target, .. } => first_gap_expr(target),
        ExprKind::EnumCtor { args, .. } => first_gap_exprs(args),
        ExprKind::Match { scrut, arms,  } => match first_gap_expr(scrut) {
            Some(x) => Some(x),
            None => first_gap_arms(arms),
        },
        ExprKind::Block(x0) => first_gap_block(x0),
        ExprKind::If { cond, then_block, else_branch,  } => match first_gap_expr(cond) {
            Some(x) => Some(x),
            None => match first_gap_block(then_block) {
            Some(x) => Some(x),
            None => first_gap_else(else_branch),
        },
        },
    }
}

fn first_gap_opt(e: &Option<Expr>) -> (r: Option<Span>)
    ensures
        r == gap_opt(*e),
    decreases e,
{
    match e {
        Some(x) => first_gap_expr(x),
        None => None,
    }
}

fn first_gap_clause(c: &CompClause) -> (r: Option<Span>)
    ensures
        r == gap_clause(*c),
    decreases c,
{
    match c {
        CompClause::For { var: _, iter } => first_gap_expr(iter),
        CompClause::If(e) => first_gap_expr(e),
    }
}

#[verifier::loop_isolation(false)]
fn first_gap_exprs(v: &Vec<Expr>) -> (r: Option<Span>)
    ensures
        r == gap_exprs(v@, 0),
    decreases v,
{
    let mut i: usize = 0;
    while i < v.len()
        invariant
            i <= v@.len(),
            gap_exprs(v@, 0) == gap_exprs(v@, i as nat),
        decreases v@.len() - i,
    {
        let gap = first_gap_expr(&v[i]);
        if gap.is_some() {
            return gap;
        }
        i = i + 1;
    }
    None
}

#[verifier::loop_isolation(false)]
fn first_gap_fields(v: &Vec<(String, Expr)>) -> (r: Option<Span>)
    ensures
        r == gap_fields(v@, 0),
    decreases v,
{
    let mut i: usize = 0;
    while i < v.len()
        invariant
            i <= v@.len(),
            gap_fields(v@, 0) == gap_fields(v@, i as nat),
        decreases v@.len() - i,
    {
        let gap = first_gap_expr(&v[i].1);
        if gap.is_some() {
            return gap;
        }
        i = i + 1;
    }
    None
}

#[verifier::loop_isolation(false)]
fn first_gap_pairs(v: &Vec<(Expr, Expr)>) -> (r: Option<Span>)
    ensures
        r == gap_pairs(v@, 0),
    decreases v,
{
    let mut i: usize = 0;
    while i < v.len()
        invariant
            i <= v@.len(),
            gap_pairs(v@, 0) == gap_pairs(v@, i as nat),
        decreases v@.len() - i,
    {
        let gap = match first_gap_expr(&v[i].0) {
            Some(x) => Some(x),
            None => first_gap_expr(&v[i].1),
        };
        if gap.is_some() {
            return gap;
        }
        i = i + 1;
    }
    None
}

#[verifier::loop_isolation(false)]
fn first_gap_clauses(v: &Vec<CompClause>) -> (r: Option<Span>)
    ensures
        r == gap_clauses(v@, 0),
    decreases v,
{
    let mut i: usize = 0;
    while i < v.len()
        invariant
            i <= v@.len(),
            gap_clauses(v@, 0) == gap_clauses(v@, i as nat),
        decreases v@.len() - i,
    {
        let gap = first_gap_clause(&v[i]);
        if gap.is_some() {
            return gap;
        }
        i = i + 1;
    }
    None
}

#[verifier::loop_isolation(false)]
fn first_gap_arms(v: &Vec<MatchArm>) -> (r: Option<Span>)
    ensures
        r == gap_arms(v@, 0),
    decreases v,
{
    let mut i: usize = 0;
    while i < v.len()
        invariant
            i <= v@.len(),
            gap_arms(v@, 0) == gap_arms(v@, i as nat),
        decreases v@.len() - i,
    {
        let gap = first_gap_expr(&v[i].body);
        if gap.is_some() {
            return gap;
        }
        i = i + 1;
    }
    None
}

#[verifier::loop_isolation(false)]
fn first_gap_stmts(v: &Vec<Stmt>) -> (r: Option<Span>)
    ensures
        r == gap_stmts(v@, 0),
    decreases v,
{
    let mut i: usize = 0;
    while i < v.len()
        invariant
            i <= v@.len(),
            gap_stmts(v@, 0) == gap_stmts(v@, i as nat),
        decreases v@.len() - i,
    {
        let gap = first_gap_stmt(&v[i]);
        if gap.is_some() {
            return gap;
        }
        i = i + 1;
    }
    None
}

fn first_gap_block(b: &Block) -> (r: Option<Span>)
    ensures
        r == gap_block(*b),
    decreases b,
{
    match first_gap_stmts(&b.stmts) {
        Some(x) => Some(x),
        None => match &b.tail {
            Some(t) => first_gap_expr(t),
            None => None,
        },
    }
}

fn first_gap_if(i: &IfStmt) -> (r: Option<Span>)
    ensures
        r == gap_if(*i),
    decreases i,
{
    match first_gap_expr(&i.cond) {
        Some(x) => Some(x),
        None => match first_gap_block(&i.then_block) {
            Some(x) => Some(x),
            None => first_gap_else(&i.else_branch),
        },
    }
}

fn first_gap_else(e: &ElseBranch) -> (r: Option<Span>)
    ensures
        r == gap_else(*e),
    decreases e,
{
    match e {
        ElseBranch::Absent => None,
        ElseBranch::Block(b) => first_gap_block(b),
        ElseBranch::If(i) => first_gap_if(i),
    }
}

fn first_gap_stmt(s: &Stmt) -> (r: Option<Span>)
    ensures
        r == gap_stmt(*s),
    decreases s,
{
    match s {
        Stmt::Let { value, .. } => first_gap_expr(value),
        Stmt::Assign { target, value, .. } => match first_gap_expr(target) {
            Some(x) => Some(x),
            None => first_gap_expr(value),
        },
        Stmt::Return { value, .. } => first_gap_opt(value),
        Stmt::If(x0) => first_gap_if(x0),
        Stmt::While { cond, body, .. } => match first_gap_expr(cond) {
            Some(x) => Some(x),
            None => first_gap_block(body),
        },
        Stmt::For { iter, body, .. } => match first_gap_expr(iter) {
            Some(x) => Some(x),
            None => first_gap_block(body),
        },
        Stmt::ForRange { start, end, body, .. } => match first_gap_expr(start) {
            Some(x) => Some(x),
            None => match first_gap_expr(end) {
            Some(x) => Some(x),
            None => first_gap_block(body),
        },
        },
        Stmt::Break(_) => None,
        Stmt::Continue(_) => None,
        Stmt::Expr(x0) => first_gap_expr(x0),
        Stmt::Parallel { stmts, .. } => first_gap_stmts(stmts),
        Stmt::ParallelForTo { source, output, body, .. } => match first_gap_expr(source) {
            Some(x) => Some(x),
            None => match first_gap_expr(output) {
            Some(x) => Some(x),
            None => first_gap_block(body),
        },
        },
        Stmt::Emit { value, .. } => first_gap_expr(value),
        Stmt::Delete { target, .. } => first_gap_expr(target),
        Stmt::LetTuple { value, .. } => first_gap_expr(value),
        Stmt::Placeholder(span) => Some(*span),
    }
}

fn type_error(msg: String, span: Span) -> (r: Error)
    ensures
        r@ == (ErrorView { kind: ErrorKind::Type, msg: msg@, span }),
{
    Error::new(ErrorKind::Type, msg, span)
}

/// The first of the modifiers, from the `i`-th on, whose name stood before.
pub open spec fn first_duplicate(mods: Seq<ModifierDecl>, i: nat) -> Option<int>
    decreases mods.len() - i,
{
    if i >= mods.len() {
        None
    } else if place(mods.take(i as int), mods[i as int].name@) is Some {
        Some(i as int)
    } else {
        first_duplicate(mods, i + 1)
    }
}

pub open spec fn duplicate_error(m: ModifierDecl) -> ErrorView {
    ErrorView {
        kind: ErrorKind::Type,
        msg: "duplicate modifier '"@ + m.name@ + "'"@,
        span: m.span,
    }
}

pub open spec fn wrong_count(name: Seq<char>, want: nat, got: nat) -> Seq<char> {
    "modifier '"@ + name + "' expects "@ + decimal(want) + " arg(s), got "@ + decimal(got)
}

/// Whether a modifier's body has a place for the wrapped body, at any depth.
pub open spec fn has_gap(m: ModifierDecl) -> bool {
    gap_stmts(m.body.stmts@, 0) is Some
}

/// What is wrong with one application of a modifier, in a function at `span`.
pub open spec fn layer_error(mods: Seq<ModifierDecl>, name: Seq<char>, n_args: nat, span: Span) -> Option<
    ErrorView,
> {
    match place(mods, name) {
        None => Some(
            ErrorView {
                kind: ErrorKind::Type,
                msg: "unknown modifier '"@ + name + "'"@,
                span,
            },
        ),
        Some(k) => if n_args != mods[k].params@.len() {
            Some(
                ErrorView {
                    kind: ErrorKind::Type,
                    msg: wrong_count(name, mods[k].params@.len(), n_args),
                    span,
                },
            )
        } else if !has_gap(mods[k]) {
            Some(
                ErrorView {
                    kind: ErrorKind::Type,
                    msg: "modifier '"@ + name + "' has no `_;` placeholder"@,
                    span: mods[k].span,
                },
            )
        } else {
            None
        },
    }
}

/// The first error among the last modifiers of a function, from the innermost
/// out; `n` modifiers stand before those looked at.
pub open spec fn layers_error(
    mods: Seq<ModifierDecl>,
    applied: Seq<(String, Vec<Expr>)>,
    span: Span,
    n: nat,
) -> Option<ErrorView>
    decreases n,
    when n <= applied.len()
{
    if n == 0 {
        None
    } else {
        match layer_error(mods, applied[n - 1].0@, applied[n - 1].1@.len(), span) {
            Some(e) => Some(e),
            None => layers_error(mods, applied, span, (n - 1) as nat),
        }
    }
}

/// Whether `r` is a modifier's body with `inner` in place of every `_;`, at any
/// depth, and the arguments in place of the parameters.
pub open spec fn layer(m: ModifierDecl, args: Seq<Expr>, inner: Seq<Stmt>, r: Seq<Stmt>) -> bool {
    put_stmts(m.body.stmts@, Subst { params: m.params@, args, fill: Some(inner) }, r)
}

/// Whether `r` is `body` wrapped in the modifiers from the `k`-th on, the `k`-th
/// outermost.
pub open spec fn wrapped(
    mods: Seq<ModifierDecl>,
    applied: Seq<(String, Vec<Expr>)>,
    k: nat,
    body: Seq<Stmt>,
    r: Seq<Stmt>,
) -> bool
    decreases applied.len() - k,
{
    if k >= applied.len() {
        put_stmts(body, no_subst(), r)
    } else {
        exists|mid: Seq<Stmt>|
            wrapped(mods, applied, k + 1, body, mid) && #[trigger] wraps(mods, applied[k as int], mid, r)
    }
}

/// Whether `r` is `inner` wrapped in one modifier.
pub open spec fn wraps(
    mods: Seq<ModifierDecl>,
    applied: (String, Vec<Expr>),
    inner: Seq<Stmt>,
    r: Seq<Stmt>,
) -> bool {
    match place(mods, applied.0@) {
        Some(m) => layer(mods[m], applied.1@, inner, r),
        None => false,
    }
}

/// Whether `b` is the body of `f` inside its modifiers.
pub open spec fn wrapped_body(mods: Seq<ModifierDecl>, f: FnDef, b: Block) -> bool {
    if f.modifiers@.len() == 0 {
        b == f.body
    } else {
        wrapped(mods, f.modifiers@, 0, f.body.stmts@, b.stmts@) && b.tail == f.body.tail && b.span
            == f.body.span
    }
}

/// Whether `g` is `f` with its modifiers written out: the body wrapped, and no
/// modifier and no `_;` left.
pub open spec fn expanded_fn(mods: Seq<ModifierDecl>, f: FnDef, g: FnDef) -> bool {
    &&& layers_error(mods, f.modifiers@, f.span, f.modifiers@.len()) is None
    &&& wrapped_body(mods, f, g.body)
    &&& gap_block(g.body) is None
    &&& g.modifiers@.len() == 0
    &&& g == (FnDef { body: g.body, modifiers: g.modifiers, ..f })
}

pub open spec fn stray_error(span: Span) -> ErrorView {
    ErrorView {
        kind: ErrorKind::Type,
        msg: "`_;` is only valid inside a modifier body"@,
        span,
    }
}

/// Whether `e` is what is wrong with the modifiers of `f`: the innermost faulty
/// application, or else a `_;` left in the wrapped body.
pub open spec fn fails_with(mods: Seq<ModifierDecl>, f: FnDef, e: ErrorView) -> bool {
    match layers_error(mods, f.modifiers@, f.span, f.modifiers@.len()) {
        Some(x) => e == x,
        None => exists|b: Block|
            #[trigger] wrapped_body(mods, f, b) && gap_block(b) is Some && e == stray_error(gap_block(b)->0),
    }
}

/// The statements of `m` around `inner`, and whether `m` has a place for them.
fn wrap(m: &ModifierDecl, args: &Vec<Expr>, inner: &Vec<Stmt>) -> (r: (Vec<Stmt>, bool))
    requires
        m.params@.len() == args@.len(),
    ensures
        layer(*m, args@, inner@, r.0@),
        r.1 == has_gap(*m),
{
    let seen: bool = first_gap_stmts(&m.body.stmts).is_some();
    (copy_stmts(&m.body.stmts, &m.params, args, Some(inner)), seen)
}

fn count_message(name: &str, want: usize, got: usize) -> (r: String)
    ensures
        r@ == wrong_count(name@, want as nat, got as nat),
{
    let mut msg = concat3("modifier '", name, "' expects ");
    push_decimal(&mut msg, want as u128);
    msg.append(" arg(s), got ");
    push_decimal(&mut msg, got as u128);
    msg
}

/// Writes out the modifiers of one function.
#[verifier::loop_isolation(false)]
#[verifier::rlimit(30)]
fn expand_fn(f: &mut FnDef, mods: &Vec<ModifierDecl>) -> (r: Result<(), Error>)
    ensures
        match r {
            Ok(_) => expanded_fn(mods@, *old(f), *final(f)),
            Err(e) => fails_with(mods@, *old(f), e@) && *final(f) == *old(f),
        },
{
    let ghost f0 = *f;
    let n: usize = f.modifiers.len();
    if n == 0 {
        return match first_gap_block(&f.body) {
            Some(span) => {
                assert(wrapped_body(mods@, f0, f0.body));
                Err(type_error(text("`_;` is only valid inside a modifier body"), span))
            },
            None => Ok(()),
        };
    }
    let none: Vec<Param> = Vec::new();
    let nothing: Vec<Expr> = Vec::new();
    assert(subst_of(none, nothing, None) == no_subst());
    let mut current = copy_stmts(&f.body.stmts, &none, &nothing, None);
    let mut k: usize = n;
    while k > 0
        invariant
            k <= n,
            *f == f0,
            wrapped(mods@, f0.modifiers@, k as nat, f0.body.stmts@, current@),
            layers_error(mods@, f0.modifiers@, f0.span, n as nat) == layers_error(
                mods@,
                f0.modifiers@,
                f0.span,
                k as nat,
            ),
        decreases k,
    {
        k = k - 1;
        let name = f.modifiers[k].0.as_str();
        let m = match find_last(mods, name) {
            Some(m) => m,
            None => return Err(type_error(concat3("unknown modifier '", name, "'"), f.span)),
        };
        let args = &f.modifiers[k].1;
        if args.len() != mods[m].params.len() {
            return Err(type_error(count_message(name, mods[m].params.len(), args.len()), f.span));
        }
        let (outer, seen) = wrap(&mods[m], args, &current);
        if !seen {
            return Err(
                type_error(concat3("modifier '", name, "' has no `_;` placeholder"), mods[m].span),
            );
        }
        assert(wrapped(mods@, f0.modifiers@, k as nat + 1, f0.body.stmts@, current@));
        assert(wraps(mods@, f0.modifiers@[k as int], current@, outer@));
        current = outer;
    }
    let gap = match first_gap_stmts(&current) {
        Some(x) => Some(x),
        None => match &f.body.tail {
            Some(t) => first_gap_expr(t),
            None => None,
        },
    };
    match gap {
        Some(span) => {
            proof {
                let b = Block { stmts: current, tail: f0.body.tail, span: f0.body.span };
                assert(wrapped_body(mods@, f0, b));
                assert(gap_block(b) == Some(span));
            }
            Err(type_error(text("`_;` is only valid inside a modifier body"), span))
        },
        None => {
            f.body.stmts = current;
            f.modifiers = Vec::new();
            Ok(())
        },
    }
}

/// Whether the first `k` functions of `m` have their modifiers written out and
/// nothing else has changed.
pub open spec fn expanded_upto(m0: Module, m: Module, k: int) -> bool {
    &&& m == (Module { functions: m.functions, ..m0 })
    &&& m.functions@.len() == m0.functions@.len()
    &&& forall|j: int|
        0 <= j < k ==> expanded_fn(m0.modifiers@, m0.functions@[j], #[trigger] m.functions@[j])
    &&& forall|j: int| k <= j < m.functions@.len() ==> #[trigger] m.functions@[j] == m0.functions@[j]
}

fn find_duplicate(mods: &Vec<ModifierDecl>) -> (r: Option<usize>)
    ensures
        match r {
            Some(i) => first_duplicate(mods@, 0) == Some(i as int) && i < mods@.len(),
            None => first_duplicate(mods@, 0) is None,
        },
{
    let mut i: usize = 0;
    while i < mods.len()
        invariant
            i <= mods@.len(),
            first_duplicate(mods@, 0) == first_duplicate(mods@, i as nat),
        decreases mods@.len() - i,
    {
        let mut j: usize = 0;
        let mut twice: bool = false;
        while j < i
            invariant
                j <= i < mods@.len(),
                twice == exists|w: int| 0 <= w < j && (#[trigger] mods@[w]).name@ == mods@[i as int].name@,
            decreases i - j,
        {
            if same(mods[j].name.as_str(), mods[i].name.as_str()) {
                assert(mods@[j as int].name@ == mods@[i as int].name@);
                twice = true;
            }
            j = j + 1;
        }
        proof {
            let before = mods@.take(i as int);
            lemma_place(before, mods@[i as int].name@);
            if twice {
                let w = choose|w: int| 0 <= w < i && (#[trigger] mods@[w]).name@ == mods@[i as int].name@;
                assert(before[w] == mods@[w]);
            } else if place(before, mods@[i as int].name@) is Some {
                let w = place(before, mods@[i as int].name@)->0;
                assert(before[w] == mods@[w]);
            }
        }
        if twice {
            return Some(i);
        }
        i = i + 1;
    }
    None
}

/// Writes out the modifiers of every function of a module.
#[verifier::rlimit(30)]
pub fn expand(module: &mut Module) -> (r: Result<(), Error>)
    ensures
        match first_duplicate(old(module).modifiers@, 0) {
            Some(k) => *final(module) == *old(module) && match r {
                Ok(_) => false,
                Err(e) => e@ == duplicate_error(old(module).modifiers@[k]),
            },
            None => match r {
                Ok(_) => expanded_upto(*old(module), *final(module), old(module).functions@.len() as int),
                Err(e) => exists|k: int|
                    0 <= k < old(module).functions@.len() && expanded_upto(
                        *old(module),
                        *final(module),
                        k,
                    ) && #[trigger] fails_with(
                        old(module).modifiers@,
                        old(module).functions@[k],
                        e@,
                    ),
            },
        },
{
    let ghost m0 = *module;
    match find_duplicate(&module.modifiers) {
        Some(i) => {
            let msg = concat3("duplicate modifier '", module.modifiers[i].name.as_str(), "'");
            return Err(type_error(msg, module.modifiers[i].span));
        },
        None => {},
    }
    let n: usize = module.functions.len();
    let mut k: usize = 0;
    while k < n
        invariant
            k <= n == m0.functions@.len(),
            expanded_upto(m0, *module, k as int),
            first_duplicate(m0.modifiers@, 0) is None,
            m0 == *old(module),
        decreases n - k,
    {
        assert(module.functions@[k as int] == m0.functions@[k as int]);
        let ghost before = module.functions@;
        let r = expand_fn(&mut module.functions[k], &module.modifiers);
        match r {
            Ok(_) => {},
            Err(e) => {
                assert(module.functions@ =~= before);
                assert(expanded_upto(m0, *module, k as int));
                assert(fails_with(m0.modifiers@, m0.functions@[k as int], e@));
                return Err(e);
            },
        }
        assert forall|j: int| 0 <= j < k + 1 implies expanded_fn(
            m0.modifiers@,
            m0.functions@[j],
            #[trigger] module.functions@[j],
        ) by {
            if j < k {
                assert(module.functions@[j] == before[j]);
            }
        }
        k = k + 1;
    }
    Ok(())
}

/// After the expansion no function names a modifier and no `_;` is left.
pub proof fn expansion_leaves_no_modifier(m0: Module, m: Module, k: int)
    requires
        expanded_upto(m0, m, m0.functions@.len() as int),
        0 <= k < m.functions@.len(),
    ensures
        m.functions@[k].modifiers@.len() == 0,
        gap_block(m.functions@[k].body) is None,
{
    assert(expanded_fn(m0.modifiers@, m0.functions@[k], m.functions@[k]));
}

/// A module without modifiers and without `_;` is left as it is.
pub proof fn expansion_without_modifiers_changes_nothing(m0: Module, m: Module, k: int)
    requires
        expanded_upto(m0, m, m0.functions@.len() as int),
        0 <= k < m.functions@.len(),
        m0.functions@[k].modifiers@.len() == 0,
    ensures
        m.functions@[k].body == m0.functions@[k].body,
        m.functions@[k].name == m0.functions@[k].name,
{
    assert(expanded_fn(m0.modifiers@, m0.functions@[k], m.functions@[k]));
}

} // verus!
