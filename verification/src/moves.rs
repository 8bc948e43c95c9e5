//! What the ownership analysis promises of every path.
//!
//! A path through a function settles what the analysis leaves open: which branch
//! is taken, how often a loop runs, and after how many statements a block is left.
//! Along it values are moved as the analysis says, and a use of a moved value is an
//! error. Where the analysis finds no misuse, no path has one.

use vstd::prelude::*;
use crate::affine::{
    EnvView, ExprOutcome, Outcome, as_copy, bound, bound_all, clause_count, clauses_of, element_copy,
    fn_misuse, innermost, left, lemma_innermost_range, lemma_innermost_same, merged, on_arms, on_block,
    on_comp, on_comp_round, on_else, on_expr, on_exprs, on_fields, on_if, on_leaf, on_loop, on_pairs,
    on_round, on_stmt, on_stmts, on_target, only_env, peek, result_copy, start_env,
    type_error, use_name, with_pattern,
};
use crate::ast::{
    copyable, Block, CompClause, ElseBranch, Expr, ExprKind, FnDef, IfStmt, MatchArm, MatchPattern,
    Module, Stmt,
};
use crate::tables::place;
use crate::token::Span;

verus! {

/// The choices of a path: a number for each place of a tree.
pub type Choices = spec_fn(Seq<nat>) -> nat;

/// The choices below the `k`-th branch of the tree.
pub open spec fn branch(o: Choices, k: nat) -> Choices {
    |s: Seq<nat>| o(seq![k] + s)
}

/// The choice at the root of the tree.
pub open spec fn pick(o: Choices) -> nat {
    o(seq![])
}

pub open spec fn along_peek(m: Module, e: Expr, o: Choices, env: EnvView) -> Outcome
    decreases e, 3 * clause_count(e) + 4, 0nat,
{
    match e.kind {
        ExprKind::Ident(name) => peek(m, e, env),
        ExprKind::Field { target, name } => along_peek(m, *target, o, env),
        _ => only_env(along_expr(m, e, o, env)),
    }
}

pub open spec fn along_exprs(m: Module, s: Seq<Expr>, i: nat, o: Choices, env: EnvView) -> Outcome
    decreases s, s.len() - i, 0nat,
{
    if i >= s.len() {
        Ok(env)
    } else {
        match along_expr(m, s[i as int], branch(o, 0), env) {
            Err(e) => Err(e),
            Ok((c, env2)) => along_exprs(m, s, i + 1, branch(o, 1), env2),
        }
    }
}

pub open spec fn along_fields(m: Module, s: Seq<(String, Expr)>, i: nat, o: Choices, env: EnvView) -> Outcome
    decreases s, s.len() - i, 0nat,
{
    if i >= s.len() {
        Ok(env)
    } else {
        match along_expr(m, s[i as int].1, branch(o, 0), env) {
            Err(e) => Err(e),
            Ok((c, env2)) => along_fields(m, s, i + 1, branch(o, 1), env2),
        }
    }
}

pub open spec fn along_pairs(m: Module, s: Seq<(Expr, Expr)>, i: nat, o: Choices, env: EnvView) -> Outcome
    decreases s, s.len() - i, 0nat,
{
    if i >= s.len() {
        Ok(env)
    } else {
        match along_expr(m, s[i as int].0, branch(o, 0), env) {
            Err(e) => Err(e),
            Ok((c, env2)) => match along_expr(m, s[i as int].1, branch(o, 1), env2) {
                Err(e) => Err(e),
                Ok((c2, env3)) => along_pairs(m, s, i + 1, branch(o, 2), env3),
            },
        }
    }
}

/// One arm of a match.
pub open spec fn along_arm(m: Module, arm: MatchArm, o: Choices, env: EnvView) -> ExprOutcome
    decreases arm, 0nat, 0nat,
{
    left(along_expr(m, arm.body, o, with_pattern(env, arm.pattern)))
}

/// The arm that the path takes; a match without arms gives nothing.
pub open spec fn along_arms(m: Module, s: Seq<MatchArm>, o: Choices, env: EnvView) -> ExprOutcome
    decreases s, 0nat, 0nat,
{
    if pick(o) < s.len() {
        along_arm(m, s[pick(o) as int], branch(o, 0), env)
    } else {
        Ok((true, env))
    }
}

pub open spec fn along_leaf(m: Module, e: Expr, o: Choices, env: EnvView) -> Outcome
    decreases e, 0nat, 0nat,
{
    match e.kind {
        ExprKind::ListComp { mapper, clauses } => only_env(along_expr(m, *mapper, o, env)),
        ExprKind::SetComp { mapper, clauses } => only_env(along_expr(m, *mapper, o, env)),
        ExprKind::DictComp { key, value, clauses } => match along_expr(m, *key, branch(o, 0), env) {
            Err(x) => Err(x),
            Ok((c, env2)) => only_env(along_expr(m, *value, branch(o, 1), env2)),
        },
        _ => Ok(env),
    }
}

pub open spec fn along_comp_round(m: Module, e: Expr, i: nat, var: Seq<char>, o: Choices, env: EnvView) -> Outcome
    decreases e, 3 * (clause_count(e) - i) + 2, 0nat,
{
    if i > clause_count(e) {
        Ok(env)
    } else {
        match along_comp(m, e, i, o, bound(env.push(Map::empty()), var, true)) {
            Err(x) => Err(x),
            Ok(env2) => Ok(env2.drop_last()),
        }
    }
}

/// Some rounds of a loop of a comprehension.
pub open spec fn along_comp_rounds(
    m: Module,
    e: Expr,
    i: nat,
    var: Seq<char>,
    n: nat,
    o: Choices,
    env: EnvView,
) -> Outcome
    decreases e, 3 * (clause_count(e) - i) + 3, n,
{
    if n == 0 || i > clause_count(e) {
        Ok(env)
    } else {
        match along_comp_round(m, e, i, var, branch(o, 0), env) {
            Err(x) => Err(x),
            Ok(env2) => along_comp_rounds(m, e, i, var, (n - 1) as nat, branch(o, 1), env2),
        }
    }
}

pub open spec fn along_comp(m: Module, e: Expr, i: nat, o: Choices, env: EnvView) -> Outcome
    decreases e, 3 * (clause_count(e) - i) + 1, 0nat,
{
    if i > clause_count(e) {
        Ok(env)
    } else if i == clause_count(e) {
        along_leaf(m, e, o, env)
    } else {
        match clauses_of(e)[i as int] {
            CompClause::For { var, iter } => match along_expr(m, iter, branch(o, 0), env) {
                Err(x) => Err(x),
                Ok((c, env2)) => along_comp_rounds(m, e, i + 1, var@, pick(o), branch(o, 1), env2),
            },
            CompClause::If(cond) => match along_expr(m, cond, branch(o, 0), env) {
                Err(x) => Err(x),
                Ok((c, env2)) => if pick(o) == 0 {
                    Ok(env2)
                } else {
                    along_comp(m, e, i + 1, branch(o, 1), env2)
                },
            },
        }
    }
}

/// The statements from the `i`-th up to the `n`-th.
pub open spec fn along_stmts(m: Module, s: Seq<Stmt>, i: nat, n: nat, o: Choices, env: EnvView) -> Outcome
    decreases s, s.len() - i, 0nat,
{
    if i >= s.len() || i >= n {
        Ok(env)
    } else {
        match along_stmt(m, s[i as int], branch(o, 0), env) {
            Err(e) => Err(e),
            Ok(env2) => along_stmts(m, s, i + 1, n, branch(o, 1), env2),
        }
    }
}

/// A block, which is left after as many statements as the path says: a return, a
/// `break` and a `continue` leave it early.
pub open spec fn along_block(m: Module, b: Block, o: Choices, env: EnvView) -> ExprOutcome
    decreases b, 0nat, 0nat,
{
    match along_stmts(m, b.stmts@, 0, pick(o), branch(o, 0), env.push(Map::empty())) {
        Err(e) => Err(e),
        Ok(env2) => match b.tail {
            Some(t) => if pick(o) > b.stmts@.len() {
                left(along_expr(m, *t, branch(o, 1), env2))
            } else {
                Ok((true, env2.drop_last()))
            },
            None => Ok((true, env2.drop_last())),
        },
    }
}

pub open spec fn along_round(m: Module, var: Seq<char>, body: Block, o: Choices, env: EnvView) -> Outcome
    decreases body, 1nat, 0nat,
{
    match along_block(m, body, o, bound(env.push(Map::empty()), var, true)) {
        Err(e) => Err(e),
        Ok((c, env2)) => Ok(env2.drop_last()),
    }
}

/// Some rounds of a loop over elements.
pub open spec fn along_rounds(m: Module, var: Seq<char>, body: Block, n: nat, o: Choices, env: EnvView) -> Outcome
    decreases body, 2nat, n,
{
    if n == 0 {
        Ok(env)
    } else {
        match along_round(m, var, body, branch(o, 0), env) {
            Err(e) => Err(e),
            Ok(env2) => along_rounds(m, var, body, (n - 1) as nat, branch(o, 1), env2),
        }
    }
}

/// Some rounds of a conditional loop: its body, then its condition.
pub open spec fn along_turns(m: Module, s: Stmt, n: nat, o: Choices, env: EnvView) -> Outcome
    decreases s, 0nat, n,
{
    match s {
        Stmt::While { cond, body, span } => if n == 0 {
            Ok(env)
        } else {
            match along_block(m, body, branch(o, 0), env) {
                Err(e) => Err(e),
                Ok((c, env2)) => match along_expr(m, cond, branch(o, 1), env2) {
                    Err(e) => Err(e),
                    Ok((c2, env3)) => along_turns(m, s, (n - 1) as nat, branch(o, 2), env3),
                },
            }
        },
        _ => Ok(env),
    }
}

pub open spec fn along_stmt(m: Module, s: Stmt, o: Choices, env: EnvView) -> Outcome
    decreases s, 1nat, 0nat,
{
    match s {
        Stmt::Let { name, ty, value, span } => match along_expr(m, value, o, env) {
            Err(e) => Err(e),
            Ok((c, env2)) => Ok(
                bound(
                    env2,
                    name@,
                    match ty {
                        Some(t) => copyable(t),
                        None => c,
                    },
                ),
            ),
        },
        Stmt::Assign { target, value, span } => match along_target(m, target, branch(o, 0), env) {
            Err(e) => Err(e),
            Ok(env2) => only_env(along_expr(m, value, branch(o, 1), env2)),
        },
        Stmt::Return { value, span } => match value {
            Some(e) => only_env(along_expr(m, e, o, env)),
            None => Ok(env),
        },
        Stmt::If(i) => only_env(along_if(m, i, o, env)),
        Stmt::While { cond, body, span } => match along_expr(m, cond, branch(o, 0), env) {
            Err(e) => Err(e),
            Ok((c, env2)) => along_turns(m, s, pick(o), branch(o, 1), env2),
        },
        Stmt::For { var, iter, body, span } => match along_expr(m, iter, branch(o, 0), env) {
            Err(e) => Err(e),
            Ok((c, env2)) => along_rounds(m, var@, body, pick(o), branch(o, 1), env2),
        },
        Stmt::ForRange { var, start, end, inclusive, body, span } => match along_expr(m, start, branch(o, 0), env) {
            Err(e) => Err(e),
            Ok((c, env2)) => match along_expr(m, end, branch(o, 1), env2) {
                Err(e) => Err(e),
                Ok((c2, env3)) => along_rounds(m, var@, body, pick(o), branch(o, 2), env3),
            },
        },
        Stmt::Break(_) | Stmt::Continue(_) | Stmt::Placeholder(_) => Ok(env),
        Stmt::Expr(e) => only_env(along_expr(m, e, o, env)),
        Stmt::Parallel { stmts, span } => along_stmts(m, stmts@, 0, stmts@.len(), o, env),
        Stmt::ParallelForTo { id_var, source, output, body, span } => match along_expr(m, source, branch(o, 0), env) {
            Err(e) => Err(e),
            Ok((c, env2)) => match along_target(m, output, branch(o, 1), env2) {
                Err(e) => Err(e),
                Ok(env3) => along_rounds(m, id_var@, body, pick(o), branch(o, 2), env3),
            },
        },
        Stmt::Emit { value, span } => only_env(along_expr(m, *value, o, env)),
        Stmt::Delete { target, span } => only_env(along_expr(m, target, o, env)),
        Stmt::LetTuple { names, value, span } => match along_expr(m, value, o, env) {
            Err(e) => Err(e),
            Ok((c, env2)) => Ok(bound_all(env2, names@, names@.len())),
        },
    }
}

pub open spec fn along_target(m: Module, target: Expr, o: Choices, env: EnvView) -> Outcome
    decreases target, 1nat, 0nat,
{
    match target.kind {
        ExprKind::Index { target: t, key } => only_env(along_expr(m, *key, o, env)),
        _ => Ok(env),
    }
}

pub open spec fn along_if(m: Module, i: IfStmt, o: Choices, env: EnvView) -> ExprOutcome
    decreases i, 0nat, 0nat,
{
    match along_expr(m, i.cond, branch(o, 0), env) {
        Err(e) => Err(e),
        Ok((c, env2)) => if pick(o) == 0 {
            along_block(m, i.then_block, branch(o, 1), env2)
        } else {
            along_else(m, i.else_branch, branch(o, 1), env2)
        },
    }
}

pub open spec fn along_else(m: Module, e: ElseBranch, o: Choices, env: EnvView) -> ExprOutcome
    decreases e, 0nat, 0nat,
{
    match e {
        ElseBranch::Absent => Ok((true, env)),
        ElseBranch::Block(b) => along_block(m, b, o, env),
        ElseBranch::If(i) => along_if(m, *i, o, env),
    }
}

pub open spec fn along_expr(m: Module, e: Expr, o: Choices, env: EnvView) -> ExprOutcome
    decreases e, 3 * clause_count(e) + 3, 0nat,
{
    match e.kind {
        ExprKind::Int(_)
        | ExprKind::UInt(_)
        | ExprKind::Float(_)
        | ExprKind::JsonNull
        | ExprKind::I32(_)
        | ExprKind::U32(_)
        | ExprKind::U64(_)
        | ExprKind::U128(_)
        | ExprKind::Bool(_)
        | ExprKind::Str(_)
        | ExprKind::Prev => Ok((true, env)),
        ExprKind::JsonObject(fs) => as_copy(along_fields(m, fs@, 0, o, env)),
        ExprKind::JsonArray(es) => as_copy(along_exprs(m, es@, 0, o, env)),
        ExprKind::Ident(name) => use_name(m, name@, e.span, env),
        ExprKind::Binary { op, lhs, rhs } => match along_expr(m, *lhs, branch(o, 0), env) {
            Err(x) => Err(x),
            Ok((c, env2)) => as_copy(only_env(along_expr(m, *rhs, branch(o, 1), env2))),
        },
        ExprKind::Unary { op, operand } => as_copy(only_env(along_expr(m, *operand, o, env))),
        ExprKind::DynCall { target_ident, method, args, method_is_view, method_is_pure } => as_copy(
            along_exprs(m, args@, 0, o, env),
        ),
        ExprKind::Call { module, name, args } => match along_exprs(m, args@, 0, o, env) {
            Err(x) => Err(x),
            Ok(env2) => if module is Some {
                Ok((true, env2))
            } else {
                match result_copy(m, name@) {
                    Some(c) => Ok((c, env2)),
                    None => Err(type_error("unknown function '"@ + name@ + "'"@, e.span)),
                }
            },
        },
        ExprKind::Index { target, key } => match along_expr(m, *key, branch(o, 0), env) {
            Err(x) => Err(x),
            Ok((c, env2)) => match along_expr(m, *target, branch(o, 1), env2) {
                Err(x) => Err(x),
                Ok((c2, env3)) => Ok((element_copy(m, *target), env3)),
            },
        },
        ExprKind::Array(es) => as_copy(along_exprs(m, es@, 0, o, env)),
        ExprKind::StructLit { name, fields } => match along_fields(m, fields@, 0, o, env) {
            Err(x) => Err(x),
            Ok(env2) => Ok((place(m.caps@, name@) is None, env2)),
        },
        ExprKind::Field { target, name } => as_copy(along_peek(m, *target, o, env)),
        ExprKind::Pipe { head, step } => match along_expr(m, *head, branch(o, 0), env) {
            Err(x) => Err(x),
            Ok((c, env2)) => as_copy(only_env(along_expr(m, *step, branch(o, 1), env2))),
        },
        ExprKind::ListComp { mapper, clauses } => as_copy(along_comp(m, e, 0, o, env)),
        ExprKind::SetComp { mapper, clauses } => as_copy(along_comp(m, e, 0, o, env)),
        ExprKind::DictComp { key, value, clauses } => as_copy(along_comp(m, e, 0, o, env)),
        ExprKind::SetLit(es) => as_copy(along_exprs(m, es@, 0, o, env)),
        ExprKind::DictLit(ps) => as_copy(along_pairs(m, ps@, 0, o, env)),
        ExprKind::TupleLit(es) => as_copy(along_exprs(m, es@, 0, o, env)),
        ExprKind::TupleIndex { target, index } => as_copy(only_env(along_expr(m, *target, o, env))),
        ExprKind::EnumCtor { enum_name, variant, args } => as_copy(along_exprs(m, args@, 0, o, env)),
        ExprKind::Match { scrut, arms } => match along_expr(m, *scrut, branch(o, 0), env) {
            Err(x) => Err(x),
            Ok((c, env2)) => along_arms(m, arms@, branch(o, 1), env2),
        },
        ExprKind::Block(b) => along_block(m, b, o, env),
        ExprKind::If { cond, then_block, else_branch } => match along_expr(m, *cond, branch(o, 0), env) {
            Err(x) => Err(x),
            Ok((c, env2)) => if pick(o) == 0 {
                along_block(m, then_block, branch(o, 1), env2)
            } else {
                along_else(m, else_branch, branch(o, 1), env2)
            },
        },
    }
}

/// A path through a function.
pub open spec fn along_fn(m: Module, f: FnDef, o: Choices) -> ExprOutcome {
    along_block(m, f.body, o, start_env(f, f.params@.len()))
}

/// Whether a scope holds a name, and if so, whether its value can be copied.
spec fn kind(env: EnvView, i: int, x: Seq<char>) -> Option<bool> {
    if env[i].dom().contains(x) {
        Some(env[i][x].copy)
    } else {
        None
    }
}

spec fn moved(env: EnvView, i: int, x: Seq<char>) -> bool {
    env[i].dom().contains(x) && env[i][x].moved_at is Some
}

/// Whether the environment of a path holds the names of that of the analysis, and
/// can copy what the analysis can.
#[verifier::opaque]
spec fn shape(c: EnvView, a: EnvView) -> bool {
    &&& c.len() == a.len()
    &&& forall|i: int, x: Seq<char>|
        #![trigger kind(c, i, x)]
        #![trigger kind(a, i, x)]
        0 <= i < a.len() ==> (kind(c, i, x) is Some == kind(a, i, x) is Some) && (kind(a, i, x) == Some(true)
            ==> kind(c, i, x) == Some(true))
}

/// Whether the path has moved no more than the analysis.
#[verifier::opaque]
spec fn below(c: EnvView, a: EnvView) -> bool {
    forall|i: int, x: Seq<char>|
        #![trigger moved(c, i, x)]
        #![trigger moved(a, i, x)]
        0 <= i < a.len() && moved(c, i, x) ==> moved(a, i, x)
}

/// Whether the analysis, in the first `k` scopes, has bound nothing and taken
/// nothing back.
#[verifier::opaque]
spec fn grown(a: EnvView, a2: EnvView, k: int) -> bool {
    &&& a.len() == a2.len()
    &&& forall|i: int, x: Seq<char>|
        #![trigger kind(a, i, x)]
        #![trigger kind(a2, i, x)]
        0 <= i < k ==> kind(a, i, x) == kind(a2, i, x)
    &&& forall|i: int, x: Seq<char>|
        #![trigger moved(a, i, x)]
        #![trigger moved(a2, i, x)]
        0 <= i < k && moved(a, i, x) ==> moved(a2, i, x)
}

/// Whether what the path has moved on the way is what the analysis has.
#[verifier::opaque]
spec fn fresh(c: EnvView, c2: EnvView, a: EnvView, a2: EnvView, k: int) -> bool {
    forall|i: int, x: Seq<char>|
        #![trigger moved(c2, i, x)]
        0 <= i < k && moved(c2, i, x) ==> moved(c, i, x) || (moved(a2, i, x) && !moved(a, i, x))
}

/// Whether a path has kept to the analysis from one place to another.
spec fn follows(c: EnvView, a: EnvView, c2: EnvView, a2: EnvView, k: int) -> bool {
    &&& shape(c2, a2)
    &&& a2.len() == a.len()
    &&& 0 <= k <= a.len()
    &&& grown(a, a2, k)
    &&& fresh(c, c2, a, a2, k)
    &&& below(c, a) ==> below(c2, a2)
}

spec fn held(on: Outcome, al: Outcome, c: EnvView, a: EnvView, k: int) -> bool {
    match on {
        Err(_) => true,
        Ok(a2) => match al {
            Err(_) => false,
            Ok(c2) => follows(c, a, c2, a2, k),
        },
    }
}

spec fn expr_held(on: ExprOutcome, al: ExprOutcome, c: EnvView, a: EnvView) -> bool {
    match on {
        Err(_) => true,
        Ok((p, a2)) => match al {
            Err(_) => false,
            Ok((q, c2)) => (p ==> q) && follows(c, a, c2, a2, a.len() as int),
        },
    }
}

/// Where a path and the analysis may start together; `ok` is that the path has
/// been seen to come through.
spec fn apt(c: EnvView, a: EnvView, ok: bool) -> bool {
    shape(c, a) && a.len() > 0 && (below(c, a) || ok)
}

proof fn lemma_self(a: EnvView)
    ensures
        shape(a, a),
        below(a, a),
{
    reveal(shape);
    reveal(below);
}

proof fn lemma_stay(c: EnvView, a: EnvView)
    requires
        shape(c, a),
    ensures
        follows(c, a, c, a, a.len() as int),
{
    reveal(grown);
    reveal(fresh);
}

proof fn lemma_then(c: EnvView, a: EnvView, c2: EnvView, a2: EnvView, c3: EnvView, a3: EnvView, j: int, k: int)
    requires
        follows(c, a, c2, a2, j),
        follows(c2, a2, c3, a3, k),
    ensures
        follows(c, a, c3, a3, if j <= k { j } else { k }),
{
    reveal(grown);
    reveal(fresh);
    let l = if j <= k { j } else { k };
    assert forall|i: int, x: Seq<char>| 0 <= i < l && #[trigger] moved(c3, i, x) implies moved(c, i, x) || (moved(
        a3,
        i,
        x,
    ) && !moved(a, i, x)) by {
        if !moved(c2, i, x) {
            assert(moved(a3, i, x) && !moved(a2, i, x));
        } else if !moved(c, i, x) {
            assert(moved(a2, i, x) && !moved(a, i, x));
        }
    }
    assert forall|i: int, x: Seq<char>| 0 <= i < l implies #[trigger] kind(a, i, x) == kind(a3, i, x) by {
        assert(kind(a, i, x) == kind(a2, i, x));
    }
    assert forall|i: int, x: Seq<char>| 0 <= i < l && #[trigger] moved(a, i, x) implies moved(a3, i, x) by {
        assert(moved(a2, i, x));
    }
}

proof fn lemma_fewer(c: EnvView, a: EnvView, c2: EnvView, a2: EnvView, j: int, k: int)
    requires
        follows(c, a, c2, a2, j),
        0 <= k <= j,
    ensures
        follows(c, a, c2, a2, k),
{
    reveal(grown);
    reveal(fresh);
}

/// Leaving the innermost scope.
proof fn lemma_leave(c: EnvView, a: EnvView, c2: EnvView, a2: EnvView, k: int)
    requires
        follows(c, a, c2, a2, k),
        shape(c, a),
        a.len() > 0,
        k >= a.len() - 1,
    ensures
        follows(c.drop_last(), a.drop_last(), c2.drop_last(), a2.drop_last(), a.len() - 1),
{
    reveal(shape);
    reveal(below);
    reveal(grown);
    reveal(fresh);
    let n = a.len() - 1;
    let (d, b, d2, b2) = (c.drop_last(), a.drop_last(), c2.drop_last(), a2.drop_last());
    assert forall|i: int, x: Seq<char>| 0 <= i < n implies #[trigger] kind(d, i, x) == kind(c, i, x) && moved(
        d,
        i,
        x,
    ) == moved(c, i, x) by {}
    assert forall|i: int, x: Seq<char>| 0 <= i < n implies #[trigger] kind(b, i, x) == kind(a, i, x) && moved(
        b,
        i,
        x,
    ) == moved(a, i, x) by {}
    assert forall|i: int, x: Seq<char>| 0 <= i < n implies #[trigger] kind(d2, i, x) == kind(c2, i, x) && moved(
        d2,
        i,
        x,
    ) == moved(c2, i, x) by {}
    assert forall|i: int, x: Seq<char>| 0 <= i < n implies #[trigger] kind(b2, i, x) == kind(a2, i, x) && moved(
        b2,
        i,
        x,
    ) == moved(a2, i, x) by {}
    assert(shape(d2, b2)) by {
        assert forall|i: int, x: Seq<char>| 0 <= i < n implies (#[trigger] kind(d2, i, x) is Some == kind(
            b2,
            i,
            x,
        ) is Some) && (kind(b2, i, x) == Some(true) ==> kind(d2, i, x) == Some(true)) by {
            assert(kind(d2, i, x) == kind(c2, i, x));
            assert(kind(b2, i, x) == kind(a2, i, x));
        }
    }
    assert(grown(b, b2, n)) by {
        assert forall|i: int, x: Seq<char>| 0 <= i < n implies #[trigger] kind(b, i, x) == kind(b2, i, x) by {
            assert(kind(a, i, x) == kind(a2, i, x));
        }
        assert forall|i: int, x: Seq<char>| 0 <= i < n && #[trigger] moved(b, i, x) implies moved(b2, i, x) by {
            assert(kind(b, i, x) == kind(a, i, x));
            assert(moved(a, i, x));
            assert(kind(b2, i, x) == kind(a2, i, x));
        }
    }
    assert forall|i: int, x: Seq<char>| 0 <= i < n && #[trigger] moved(d2, i, x) implies moved(d, i, x) || (moved(
        b2,
        i,
        x,
    ) && !moved(b, i, x)) by {
        assert(kind(d2, i, x) == kind(c2, i, x));
        assert(moved(c2, i, x));
        assert(kind(d, i, x) == kind(c, i, x));
        assert(kind(b, i, x) == kind(a, i, x));
        assert(kind(b2, i, x) == kind(a2, i, x));
    }
    if below(d, b) {
        assert forall|i: int, x: Seq<char>| 0 <= i < n && #[trigger] moved(d2, i, x) implies moved(b2, i, x) by {
            if moved(d, i, x) {
                assert(moved(b, i, x));
            }
        }
    }
}

/// Entering a scope that both hold alike, with nothing moved in it.
proof fn lemma_enter(c: EnvView, a: EnvView, d: EnvView, b: EnvView)
    requires
        shape(c, a),
        d.len() == c.len() + 1,
        b.len() == a.len() + 1,
        d.drop_last() == c,
        b.drop_last() == a,
        d.last() == b.last(),
        forall|x: Seq<char>| d.last().dom().contains(x) ==> (#[trigger] d.last()[x]).moved_at is None,
    ensures
        shape(d, b),
        below(c, a) ==> below(d, b),
{
    reveal(shape);
    reveal(below);
    let n = a.len() as int;
    assert forall|i: int, x: Seq<char>| 0 <= i <= n implies (#[trigger] kind(d, i, x) is Some == kind(b, i, x) is Some)
        && (kind(b, i, x) == Some(true) ==> kind(d, i, x) == Some(true)) by {
        if i < n {
            assert(d[i] == d.drop_last()[i] && b[i] == b.drop_last()[i]);
            assert(kind(d, i, x) == kind(c, i, x));
            assert(kind(b, i, x) == kind(a, i, x));
        }
    }
    if below(c, a) {
        assert forall|i: int, x: Seq<char>| 0 <= i <= n && #[trigger] moved(d, i, x) implies moved(b, i, x) by {
            if i < n {
                assert(d[i] == d.drop_last()[i] && b[i] == b.drop_last()[i]);
                assert(moved(c, i, x));
                assert(moved(a, i, x));
            }
        }
    }
}

proof fn lemma_bind(c: EnvView, a: EnvView, name: Seq<char>, p: bool, q: bool)
    requires
        shape(c, a),
        a.len() > 0,
        q ==> p,
    ensures
        follows(c, a, bound(c, name, p), bound(a, name, q), a.len() - 1),
{
    reveal(shape);
    reveal(below);
    reveal(grown);
    reveal(fresh);
    let (d, b) = (bound(c, name, p), bound(a, name, q));
    let n = a.len() - 1;
    assert forall|i: int, x: Seq<char>| 0 <= i <= n implies (#[trigger] kind(d, i, x) is Some == kind(b, i, x) is Some)
        && (kind(b, i, x) == Some(true) ==> kind(d, i, x) == Some(true)) by {
        assert(kind(c, i, x) is Some == kind(a, i, x) is Some);
    }
    if below(c, a) {
        assert forall|i: int, x: Seq<char>| 0 <= i <= n && #[trigger] moved(d, i, x) implies moved(b, i, x) by {
            assert(moved(c, i, x));
        }
    }
    assert forall|i: int, x: Seq<char>| 0 <= i < n && #[trigger] moved(d, i, x) implies moved(c, i, x) || (moved(
        b,
        i,
        x,
    ) && !moved(a, i, x)) by {
        assert(d[i] == c[i]);
    }
    assert forall|i: int, x: Seq<char>| 0 <= i < n implies #[trigger] kind(a, i, x) == kind(b, i, x) by {
        assert(b[i] == a[i]);
    }
    assert forall|i: int, x: Seq<char>| 0 <= i < n && #[trigger] moved(a, i, x) implies moved(b, i, x) by {
        assert(b[i] == a[i]);
    }
}

proof fn lemma_bind_all(c: EnvView, a: EnvView, names: Seq<String>, n: nat)
    requires
        shape(c, a),
        a.len() > 0,
        n <= names.len(),
    ensures
        follows(c, a, bound_all(c, names, n), bound_all(a, names, n), a.len() - 1),
    decreases n,
{
    if n == 0 {
        lemma_stay(c, a);
        lemma_fewer(c, a, c, a, a.len() as int, a.len() - 1);
    } else {
        let i = (n - 1) as nat;
        lemma_bind_all(c, a, names, i);
        let (d, b) = (bound_all(c, names, i), bound_all(a, names, i));
        lemma_bind(d, b, names[n - 1]@, true, true);
        lemma_then(c, a, d, b, bound_all(c, names, n), bound_all(a, names, n), a.len() - 1, a.len() - 1);
    }
}

/// Names that are bound in a new scope.
proof fn lemma_new_names(c: EnvView, a: EnvView, names: Seq<String>, n: nat)
    requires
        n <= names.len(),
    ensures
        ({
            let (d, b) = (bound_all(c.push(Map::empty()), names, n), bound_all(a.push(Map::empty()), names, n));
            &&& d.len() == c.len() + 1
            &&& b.len() == a.len() + 1
            &&& d.drop_last() == c
            &&& b.drop_last() == a
            &&& d.last() == b.last()
            &&& forall|x: Seq<char>| d.last().dom().contains(x) ==> (#[trigger] d.last()[x]).moved_at is None
        }),
    decreases n,
{
    if n == 0 {
        assert(c.push(Map::empty()).drop_last() =~= c);
        assert(a.push(Map::empty()).drop_last() =~= a);
    } else {
        let i = (n - 1) as nat;
        lemma_new_names(c, a, names, i);
        let (d, b) = (bound_all(c.push(Map::empty()), names, i), bound_all(a.push(Map::empty()), names, i));
        assert(bound(d, names[n - 1]@, true).drop_last() =~= d.drop_last());
        assert(bound(b, names[n - 1]@, true).drop_last() =~= b.drop_last());
        let e = bound(d, names[n - 1]@, true);
        assert forall|x: Seq<char>| e.last().dom().contains(x) implies (#[trigger] e.last()[x]).moved_at is None by {
            if x != names[n - 1]@ {
                assert(d.last()[x].moved_at is None);
            }
        }
    }
}

/// The scope of a block.
proof fn lemma_enter_block(c: EnvView, a: EnvView)
    requires
        shape(c, a),
    ensures
        c.push(Map::empty()).drop_last() == c,
        a.push(Map::empty()).drop_last() == a,
        shape(c.push(Map::empty()), a.push(Map::empty())),
        below(c, a) ==> below(c.push(Map::empty()), a.push(Map::empty())),
{
    let (d, b): (EnvView, EnvView) = (c.push(Map::empty()), a.push(Map::empty()));
    assert(d.drop_last() =~= c);
    assert(b.drop_last() =~= a);
    lemma_enter(c, a, d, b);
}

/// The scope of a loop's variable.
proof fn lemma_enter_round(c: EnvView, a: EnvView, var: Seq<char>)
    requires
        shape(c, a),
    ensures
        ({
            let (d, b) = (bound(c.push(Map::empty()), var, true), bound(a.push(Map::empty()), var, true));
            &&& d.drop_last() == c
            &&& b.drop_last() == a
            &&& b.len() == a.len() + 1
            &&& shape(d, b)
            &&& below(c, a) ==> below(d, b)
        }),
{
    let (d, b) = (bound(c.push(Map::empty()), var, true), bound(a.push(Map::empty()), var, true));
    assert(d.drop_last() =~= c);
    assert(b.drop_last() =~= a);
    lemma_enter(c, a, d, b);
}

proof fn lemma_enter_pattern(c: EnvView, a: EnvView, p: MatchPattern)
    requires
        shape(c, a),
    ensures
        with_pattern(c, p).drop_last() == c,
        with_pattern(a, p).drop_last() == a,
        with_pattern(a, p).len() == a.len() + 1,
        shape(with_pattern(c, p), with_pattern(a, p)),
        below(c, a) ==> below(with_pattern(c, p), with_pattern(a, p)),
{
    match p {
        MatchPattern::Wildcard => lemma_enter_block(c, a),
        MatchPattern::EnumVariant { enum_name, variant, bindings } => {
            lemma_new_names(c, a, bindings@, bindings@.len());
            lemma_enter(c, a, with_pattern(c, p), with_pattern(a, p));
        },
    }
}

/// The path takes the first of two branches.
proof fn lemma_first(c: EnvView, a: EnvView, c1: EnvView, a1: EnvView, a2: EnvView)
    requires
        follows(c, a, c1, a1, a.len() as int),
        grown(a, a2, a.len() as int),
    ensures
        follows(c, a, c1, merged(a1, a2), a.len() as int),
{
    lemma_joins(a, a1, a2);
    reveal(shape);
    reveal(below);
    reveal(grown);
    reveal(fresh);
    let j = merged(a1, a2);
    assert forall|i: int, x: Seq<char>| 0 <= i < a.len() implies (#[trigger] kind(c1, i, x) is Some == kind(
        j,
        i,
        x,
    ) is Some) && (kind(j, i, x) == Some(true) ==> kind(c1, i, x) == Some(true)) by {
        assert(kind(a1, i, x) == kind(a, i, x));
        assert(kind(j, i, x) == kind(a, i, x));
    }
}

/// The path takes the second.
proof fn lemma_second(c: EnvView, a: EnvView, c2: EnvView, a1: EnvView, a2: EnvView)
    requires
        follows(c, a, c2, a2, a.len() as int),
        grown(a, a1, a.len() as int),
    ensures
        follows(c, a, c2, merged(a1, a2), a.len() as int),
{
    lemma_joins(a, a1, a2);
    reveal(shape);
    reveal(below);
    reveal(grown);
    reveal(fresh);
    let j = merged(a1, a2);
    assert forall|i: int, x: Seq<char>| 0 <= i < a.len() implies (#[trigger] kind(c2, i, x) is Some == kind(
        j,
        i,
        x,
    ) is Some) && (kind(j, i, x) == Some(true) ==> kind(c2, i, x) == Some(true)) by {
        assert(kind(a2, i, x) == kind(a, i, x));
        assert(kind(j, i, x) == kind(a, i, x));
    }
}

proof fn lemma_joins(a: EnvView, a1: EnvView, a2: EnvView)
    requires
        grown(a, a1, a.len() as int),
        grown(a, a2, a.len() as int),
    ensures
        grown(a, merged(a1, a2), a.len() as int),
        forall|i: int, x: Seq<char>|
            #![trigger moved(merged(a1, a2), i, x)]
            #![trigger moved(a1, i, x)]
            #![trigger moved(a2, i, x)]
            0 <= i < a.len() ==> moved(merged(a1, a2), i, x) == (moved(a1, i, x) || moved(a2, i, x)),
{
    reveal(grown);
    let j = merged(a1, a2);
    assert forall|i: int, x: Seq<char>| 0 <= i < a.len() implies #[trigger] moved(j, i, x) == (moved(a1, i, x) || moved(
        a2,
        i,
        x,
    )) by {
        assert(kind(a1, i, x) == kind(a, i, x));
        assert(kind(a2, i, x) == kind(a, i, x));
        assert(j[i] == crate::affine::merged_scope(a1[i], a2[i]));
    }
    assert forall|i: int, x: Seq<char>| 0 <= i < a.len() implies #[trigger] kind(a, i, x) == kind(j, i, x) by {
        assert(kind(a1, i, x) == kind(a, i, x));
        assert(j[i] == crate::affine::merged_scope(a1[i], a2[i]));
    }
    assert forall|i: int, x: Seq<char>| 0 <= i < a.len() && #[trigger] moved(a, i, x) implies moved(j, i, x) by {
        assert(moved(a1, i, x));
    }
}

/// Whether a path that goes round has moved no more than one round of the analysis
/// does, from `lo` to `hi`.
spec fn settles(c: EnvView, c2: EnvView, lo: EnvView, hi: EnvView) -> bool {
    &&& shape(c2, hi)
    &&& fresh(c, c2, lo, hi, lo.len() as int)
    &&& below(c, hi) ==> below(c2, hi)
}

/// A part of a round.
proof fn lemma_settles(c: EnvView, a: EnvView, c2: EnvView, a2: EnvView, lo: EnvView, hi: EnvView)
    requires
        follows(c, a, c2, a2, a.len() as int),
        grown(lo, a, lo.len() as int),
        grown(a2, hi, lo.len() as int),
    ensures
        settles(c, c2, lo, hi),
{
    reveal(shape);
    reveal(below);
    reveal(grown);
    reveal(fresh);
    assert forall|i: int, x: Seq<char>| 0 <= i < lo.len() && #[trigger] moved(c2, i, x) implies moved(c, i, x) || (
    moved(hi, i, x) && !moved(lo, i, x)) by {
        if !moved(c, i, x) {
            assert(moved(a2, i, x) && !moved(a, i, x));
            assert(moved(hi, i, x));
        }
    }
    assert forall|i: int, x: Seq<char>| 0 <= i < hi.len() implies (#[trigger] kind(c2, i, x) is Some == kind(
        hi,
        i,
        x,
    ) is Some) && (kind(hi, i, x) == Some(true) ==> kind(c2, i, x) == Some(true)) by {
        assert(kind(a2, i, x) == kind(hi, i, x));
    }
}

proof fn lemma_settles_on(c: EnvView, c2: EnvView, c3: EnvView, lo: EnvView, hi: EnvView)
    requires
        settles(c, c2, lo, hi),
        settles(c2, c3, lo, hi),
    ensures
        settles(c, c3, lo, hi),
{
    reveal(fresh);
}

proof fn lemma_settled(c: EnvView, lo: EnvView, hi: EnvView)
    requires
        shape(c, hi),
    ensures
        settles(c, c, lo, hi),
{
    reveal(fresh);
}

/// After the rounds the path has kept to the analysis.
proof fn lemma_out(c: EnvView, c2: EnvView, lo: EnvView, hi: EnvView, a1: EnvView, a2: EnvView)
    requires
        settles(c, c2, lo, hi),
        shape(c, lo),
        grown(lo, hi, lo.len() as int),
        grown(lo, a1, lo.len() as int),
        grown(lo, a2, lo.len() as int),
        grown(hi, a2, lo.len() as int),
    ensures
        follows(c, lo, c2, merged(a1, a2), lo.len() as int),
{
    lemma_joins(lo, a1, a2);
    reveal(shape);
    reveal(below);
    reveal(grown);
    reveal(fresh);
    let j = merged(a1, a2);
    assert forall|i: int, x: Seq<char>| 0 <= i < lo.len() implies (#[trigger] kind(c2, i, x) is Some == kind(
        j,
        i,
        x,
    ) is Some) && (kind(j, i, x) == Some(true) ==> kind(c2, i, x) == Some(true)) by {
        assert(kind(lo, i, x) == kind(j, i, x));
        assert(kind(lo, i, x) == kind(hi, i, x));
    }
    assert forall|i: int, x: Seq<char>| 0 <= i < lo.len() && #[trigger] moved(c2, i, x) implies moved(c, i, x) || (
    moved(j, i, x) && !moved(lo, i, x)) by {
        if !moved(c, i, x) {
            assert(moved(hi, i, x) && !moved(lo, i, x));
            assert(moved(a2, i, x));
        }
    }
    if below(c, lo) {
        assert forall|i: int, x: Seq<char>| 0 <= i < lo.len() && #[trigger] moved(c2, i, x) implies moved(j, i, x) by {
            if moved(c, i, x) {
                assert(moved(lo, i, x));
                assert(moved(a2, i, x));
            }
        }
    }
}

proof fn lemma_grown_on(a: EnvView, b: EnvView, d: EnvView, k: int)
    requires
        grown(a, b, k),
        grown(b, d, k),
    ensures
        grown(a, d, k),
{
    reveal(grown);
    assert forall|i: int, x: Seq<char>| 0 <= i < k implies #[trigger] kind(a, i, x) == kind(d, i, x) by {
        assert(kind(a, i, x) == kind(b, i, x));
    }
    assert forall|i: int, x: Seq<char>| 0 <= i < k && #[trigger] moved(a, i, x) implies moved(d, i, x) by {
        assert(moved(b, i, x));
    }
}

/// The shape holds of what the analysis comes to, and of what it came from.
proof fn lemma_shapes(c: EnvView, a: EnvView, a2: EnvView)
    requires
        grown(a, a2, a.len() as int),
    ensures
        shape(c, a) == shape(c, a2),
        below(c, a) ==> below(c, a2),
{
    reveal(shape);
    reveal(below);
    reveal(grown);
    assert forall|i: int, x: Seq<char>| 0 <= i < a.len() implies #[trigger] kind(a, i, x) == kind(a2, i, x) by {}
    if shape(c, a) {
        assert forall|i: int, x: Seq<char>| 0 <= i < a.len() implies (#[trigger] kind(c, i, x) is Some == kind(
            a2,
            i,
            x,
        ) is Some) && (kind(a2, i, x) == Some(true) ==> kind(c, i, x) == Some(true)) by {
            assert(kind(a, i, x) == kind(a2, i, x));
        }
    }
    if shape(c, a2) {
        assert forall|i: int, x: Seq<char>| 0 <= i < a.len() implies (#[trigger] kind(c, i, x) is Some == kind(
            a,
            i,
            x,
        ) is Some) && (kind(a, i, x) == Some(true) ==> kind(c, i, x) == Some(true)) by {
            assert(kind(a, i, x) == kind(a2, i, x));
        }
    }
}

proof fn lemma_use(m: Module, name: Seq<char>, span: Span, c: EnvView, a: EnvView)
    requires
        apt(c, a, use_name(m, name, span, c) is Ok),
    ensures
        expr_held(use_name(m, name, span, a), use_name(m, name, span, c), c, a),
{
    reveal(shape);
    reveal(below);
    reveal(grown);
    reveal(fresh);
    assert forall|i: int| 0 <= i < a.len() implies (#[trigger] c[i]).dom().contains(name) == a[i].dom().contains(
        name,
    ) by {
        assert(kind(c, i, name) is Some == kind(a, i, name) is Some);
    }
    lemma_innermost_same(c, a, name);
    lemma_innermost_range(a, name);
    lemma_stay(c, a);
    match innermost(a, name) {
        None => {},
        Some(k) => {
            if !moved(a, k, name) {
                assert(moved(c, k, name) || !moved(c, k, name));
                assert(kind(c, k, name) is Some && kind(a, k, name) is Some);
                let (p, c2) = use_name(m, name, span, c)->Ok_0;
                let (q, a2) = use_name(m, name, span, a)->Ok_0;
                assert forall|i: int, x: Seq<char>| 0 <= i < a.len() implies #[trigger] kind(a2, i, x) == kind(a, i, x)
                    && kind(c2, i, x) == kind(c, i, x) by {}
                assert forall|i: int, x: Seq<char>| 0 <= i < a.len() && (i != k || x != name) implies #[trigger] moved(
                    a2,
                    i,
                    x,
                ) == moved(a, i, x) && moved(c2, i, x) == moved(c, i, x) by {}
                assert(shape(c2, a2)) by {
                    assert forall|i: int, x: Seq<char>| 0 <= i < a.len() implies (#[trigger] kind(c2, i, x) is Some
                        == kind(a2, i, x) is Some) && (kind(a2, i, x) == Some(true) ==> kind(c2, i, x) == Some(
                        true,
                    )) by {
                        assert(kind(a2, i, x) == kind(a, i, x));
                        assert(kind(c, i, x) is Some == kind(a, i, x) is Some);
                    }
                }
                assert(moved(c2, k, name) ==> moved(a2, k, name));
                assert forall|i: int, x: Seq<char>| 0 <= i < a.len() && #[trigger] moved(c2, i, x) implies moved(c, i, x)
                    || (moved(a2, i, x) && !moved(a, i, x)) by {
                    if i != k || x != name {
                        assert(moved(a2, i, x) == moved(a, i, x));
                    }
                }
                assert forall|i: int, x: Seq<char>| 0 <= i < a.len() && #[trigger] moved(a, i, x) implies moved(
                    a2,
                    i,
                    x,
                ) by {}
                if below(c, a) {
                    assert forall|i: int, x: Seq<char>| 0 <= i < a.len() && #[trigger] moved(c2, i, x) implies moved(
                        a2,
                        i,
                        x,
                    ) by {
                        if i != k || x != name {
                            assert(moved(a2, i, x) == moved(a, i, x));
                        }
                    }
                }
            }
        },
    }
}

#[verifier::spinoff_prover]
#[verifier::rlimit(60)]
proof fn lemma_peek(m: Module, e: Expr, o: Choices, c: EnvView, a: EnvView)
    requires
        apt(c, a, along_peek(m, e, o, c) is Ok),
    ensures
        held(peek(m, e, a), along_peek(m, e, o, c), c, a, a.len() as int),
    decreases e, 3 * clause_count(e) + 4, 0nat,
{
    match e.kind {
        ExprKind::Ident(name) => {
            assert forall|i: int| 0 <= i < a.len() implies (#[trigger] c[i]).dom().contains(name@)
                == a[i].dom().contains(name@) by {
                reveal(shape);
                assert(kind(c, i, name@) is Some == kind(a, i, name@) is Some);
            }
            assert(c.len() == a.len()) by {
                reveal(shape);
            }
            lemma_innermost_same(c, a, name@);
            lemma_innermost_range(a, name@);
            lemma_stay(c, a);
            match innermost(a, name@) {
                Some(k) => {
                    reveal(shape);
                    reveal(below);
                    assert(kind(c, k, name@) is Some == kind(a, k, name@) is Some);
                    assert(moved(c, k, name@) && below(c, a) ==> moved(a, k, name@));
                },
                None => {},
            }
        },
        ExprKind::Field { target, name } => lemma_peek(m, *target, o, c, a),
        _ => lemma_expr(m, e, o, c, a),
    }
}

#[verifier::spinoff_prover]
#[verifier::rlimit(60)]
proof fn lemma_exprs(m: Module, s: Seq<Expr>, i: nat, o: Choices, c: EnvView, a: EnvView)
    requires
        apt(c, a, along_exprs(m, s, i, o, c) is Ok),
    ensures
        held(on_exprs(m, s, i, a), along_exprs(m, s, i, o, c), c, a, a.len() as int),
    decreases s, s.len() - i, 0nat,
{
    lemma_stay(c, a);
    if i < s.len() {
        lemma_expr(m, s[i as int], branch(o, 0), c, a);
        if on_expr(m, s[i as int], a) is Ok {
            let (p, a2) = on_expr(m, s[i as int], a)->Ok_0;
            let (q, c2) = along_expr(m, s[i as int], branch(o, 0), c)->Ok_0;
            lemma_exprs(m, s, i + 1, branch(o, 1), c2, a2);
            if on_exprs(m, s, i + 1, a2) is Ok {
                lemma_then(
                    c,
                    a,
                    c2,
                    a2,
                    along_exprs(m, s, i + 1, branch(o, 1), c2)->Ok_0,
                    on_exprs(m, s, i + 1, a2)->Ok_0,
                    a.len() as int,
                    a.len() as int,
                );
            }
        }
    }
}

#[verifier::spinoff_prover]
#[verifier::rlimit(60)]
proof fn lemma_fields(m: Module, s: Seq<(String, Expr)>, i: nat, o: Choices, c: EnvView, a: EnvView)
    requires
        apt(c, a, along_fields(m, s, i, o, c) is Ok),
    ensures
        held(on_fields(m, s, i, a), along_fields(m, s, i, o, c), c, a, a.len() as int),
    decreases s, s.len() - i, 0nat,
{
    lemma_stay(c, a);
    if i < s.len() {
        lemma_expr(m, s[i as int].1, branch(o, 0), c, a);
        if on_expr(m, s[i as int].1, a) is Ok {
            let (p, a2) = on_expr(m, s[i as int].1, a)->Ok_0;
            let (q, c2) = along_expr(m, s[i as int].1, branch(o, 0), c)->Ok_0;
            lemma_fields(m, s, i + 1, branch(o, 1), c2, a2);
            if on_fields(m, s, i + 1, a2) is Ok {
                lemma_then(
                    c,
                    a,
                    c2,
                    a2,
                    along_fields(m, s, i + 1, branch(o, 1), c2)->Ok_0,
                    on_fields(m, s, i + 1, a2)->Ok_0,
                    a.len() as int,
                    a.len() as int,
                );
            }
        }
    }
}

#[verifier::spinoff_prover]
#[verifier::rlimit(60)]
proof fn lemma_pairs(m: Module, s: Seq<(Expr, Expr)>, i: nat, o: Choices, c: EnvView, a: EnvView)
    requires
        apt(c, a, along_pairs(m, s, i, o, c) is Ok),
    ensures
        held(on_pairs(m, s, i, a), along_pairs(m, s, i, o, c), c, a, a.len() as int),
    decreases s, s.len() - i, 0nat,
{
    lemma_stay(c, a);
    if i < s.len() {
        lemma_expr(m, s[i as int].0, branch(o, 0), c, a);
        if on_expr(m, s[i as int].0, a) is Ok {
            let (p, a2) = on_expr(m, s[i as int].0, a)->Ok_0;
            let (q, c2) = along_expr(m, s[i as int].0, branch(o, 0), c)->Ok_0;
            lemma_expr(m, s[i as int].1, branch(o, 1), c2, a2);
            if on_expr(m, s[i as int].1, a2) is Ok {
                let (r, a3) = on_expr(m, s[i as int].1, a2)->Ok_0;
                let (t, c3) = along_expr(m, s[i as int].1, branch(o, 1), c2)->Ok_0;
                lemma_then(c, a, c2, a2, c3, a3, a.len() as int, a.len() as int);
                lemma_pairs(m, s, i + 1, branch(o, 2), c3, a3);
                if on_pairs(m, s, i + 1, a3) is Ok {
                    lemma_then(
                        c,
                        a,
                        c3,
                        a3,
                        along_pairs(m, s, i + 1, branch(o, 2), c3)->Ok_0,
                        on_pairs(m, s, i + 1, a3)->Ok_0,
                        a.len() as int,
                        a.len() as int,
                    );
                }
            }
        }
    }
}

#[verifier::spinoff_prover]
#[verifier::rlimit(60)]
proof fn lemma_arm(m: Module, arm: MatchArm, o: Choices, c: EnvView, a: EnvView)
    requires
        apt(c, a, along_arm(m, arm, o, c) is Ok),
    ensures
        expr_held(left(on_expr(m, arm.body, with_pattern(a, arm.pattern))), along_arm(m, arm, o, c), c, a),
    decreases arm, 0nat, 0nat,
{
    lemma_enter_pattern(c, a, arm.pattern);
    let (d, b) = (with_pattern(c, arm.pattern), with_pattern(a, arm.pattern));
    lemma_expr(m, arm.body, o, d, b);
    if on_expr(m, arm.body, b) is Ok {
        let (p, b2) = on_expr(m, arm.body, b)->Ok_0;
        let (q, d2) = along_expr(m, arm.body, o, d)->Ok_0;
        lemma_leave(d, b, d2, b2, b.len() as int);
    }
}

/// The arms from the `i`-th on; the path takes the `k`-th, or none.
#[verifier::spinoff_prover]
#[verifier::rlimit(60)]
proof fn lemma_arms(m: Module, s: Seq<MatchArm>, i: nat, k: nat, o: Choices, c: EnvView, a: EnvView)
    requires
        i <= k,
        apt(c, a, k < s.len() ==> along_arm(m, s[k as int], o, c) is Ok),
    ensures
        expr_held(
            on_arms(m, s, i, a),
            if k < s.len() {
                along_arm(m, s[k as int], o, c)
            } else {
                Ok((true, c))
            },
            c,
            a,
        ),
    decreases s, s.len() - i, 0nat,
{
    lemma_stay(c, a);
    if i < s.len() {
        let arm = s[i as int];
        let rest = on_arms(m, s, i + 1, a);
        let here = left(on_expr(m, arm.body, with_pattern(a, arm.pattern)));
        if here is Ok && rest is Ok {
            lemma_self(a);
            if i == k {
                lemma_arm(m, arm, o, c, a);
                lemma_arms(m, s, i + 1, s.len(), o, a, a);
                lemma_first(c, a, along_arm(m, arm, o, c)->Ok_0.1, here->Ok_0.1, rest->Ok_0.1);
            } else {
                lemma_arm(m, arm, o, a, a);
                lemma_arms(m, s, i + 1, k, o, c, a);
                let c2 = if k < s.len() {
                    along_arm(m, s[k as int], o, c)->Ok_0.1
                } else {
                    c
                };
                lemma_second(c, a, c2, here->Ok_0.1, rest->Ok_0.1);
            }
        }
    }
}

#[verifier::spinoff_prover]
#[verifier::rlimit(60)]
proof fn lemma_leaf(m: Module, e: Expr, o: Choices, c: EnvView, a: EnvView)
    requires
        apt(c, a, along_leaf(m, e, o, c) is Ok),
    ensures
        held(on_leaf(m, e, a), along_leaf(m, e, o, c), c, a, a.len() as int),
    decreases e, 0nat, 0nat,
{
    lemma_stay(c, a);
    match e.kind {
        ExprKind::ListComp { mapper, clauses } => lemma_expr(m, *mapper, o, c, a),
        ExprKind::SetComp { mapper, clauses } => lemma_expr(m, *mapper, o, c, a),
        ExprKind::DictComp { key, value, clauses } => {
            lemma_expr(m, *key, branch(o, 0), c, a);
            if on_expr(m, *key, a) is Ok {
                let (p, a2) = on_expr(m, *key, a)->Ok_0;
                let (q, c2) = along_expr(m, *key, branch(o, 0), c)->Ok_0;
                lemma_expr(m, *value, branch(o, 1), c2, a2);
                if on_expr(m, *value, a2) is Ok {
                    lemma_then(
                        c,
                        a,
                        c2,
                        a2,
                        along_expr(m, *value, branch(o, 1), c2)->Ok_0.1,
                        on_expr(m, *value, a2)->Ok_0.1,
                        a.len() as int,
                        a.len() as int,
                    );
                }
            }
        },
        _ => {},
    }
}

#[verifier::spinoff_prover]
#[verifier::rlimit(60)]
proof fn lemma_comp_round(m: Module, e: Expr, i: nat, var: Seq<char>, o: Choices, c: EnvView, a: EnvView)
    requires
        apt(c, a, along_comp_round(m, e, i, var, o, c) is Ok),
    ensures
        held(on_comp_round(m, e, i, var, a), along_comp_round(m, e, i, var, o, c), c, a, a.len() as int),
    decreases e, 3 * (clause_count(e) - i) + 2, 0nat,
{
    lemma_stay(c, a);
    if i <= clause_count(e) {
        lemma_enter_round(c, a, var);
        let (d, b) = (bound(c.push(Map::empty()), var, true), bound(a.push(Map::empty()), var, true));
        lemma_comp(m, e, i, o, d, b);
        if on_comp(m, e, i, b) is Ok {
            lemma_leave(d, b, along_comp(m, e, i, o, d)->Ok_0, on_comp(m, e, i, b)->Ok_0, b.len() as int);
        }
    }
}

#[verifier::spinoff_prover]
#[verifier::rlimit(60)]
proof fn lemma_comp_rounds(
    m: Module,
    e: Expr,
    i: nat,
    var: Seq<char>,
    n: nat,
    o: Choices,
    c: EnvView,
    lo: EnvView,
    hi: EnvView,
)
    requires
        i <= clause_count(e),
        lo.len() > 0,
        grown(lo, hi, lo.len() as int),
        on_comp_round(m, e, i, var, lo) == Ok::<EnvView, crate::error::ErrorView>(hi),
        on_comp_round(m, e, i, var, hi) is Ok,
        shape(c, lo),
        below(c, hi) || along_comp_rounds(m, e, i, var, n, o, c) is Ok,
    ensures
        along_comp_rounds(m, e, i, var, n, o, c) is Ok,
        settles(c, along_comp_rounds(m, e, i, var, n, o, c)->Ok_0, lo, hi),
    decreases e, 3 * (clause_count(e) - i) + 3, n,
{
    reveal(grown);
    lemma_shapes(c, lo, hi);
    if n == 0 {
        lemma_settled(c, lo, hi);
    } else {
        let r = along_comp_round(m, e, i, var, branch(o, 0), c);
        if below(c, hi) {
            lemma_comp_round(m, e, i, var, branch(o, 0), c, hi);
        }
        lemma_comp_round(m, e, i, var, branch(o, 0), c, lo);
        let c2 = r->Ok_0;
        assert(grown(lo, lo, lo.len() as int));
        assert(grown(hi, hi, lo.len() as int));
        lemma_settles(c, lo, c2, hi, lo, hi);
        lemma_shapes(c2, lo, hi);
        lemma_comp_rounds(m, e, i, var, (n - 1) as nat, branch(o, 1), c2, lo, hi);
        lemma_settles_on(c, c2, along_comp_rounds(m, e, i, var, (n - 1) as nat, branch(o, 1), c2)->Ok_0, lo, hi);
    }
}

#[verifier::spinoff_prover]
#[verifier::rlimit(60)]
proof fn lemma_comp(m: Module, e: Expr, i: nat, o: Choices, c: EnvView, a: EnvView)
    requires
        apt(c, a, along_comp(m, e, i, o, c) is Ok),
    ensures
        held(on_comp(m, e, i, a), along_comp(m, e, i, o, c), c, a, a.len() as int),
    decreases e, 3 * (clause_count(e) - i) + 1, 0nat,
{
    let k = a.len() as int;
    lemma_stay(c, a);
    if i == clause_count(e) {
        lemma_leaf(m, e, o, c, a);
    } else if i < clause_count(e) && on_comp(m, e, i, a) is Ok {
        match clauses_of(e)[i as int] {
            CompClause::For { var, iter } => {
                lemma_expr(m, iter, branch(o, 0), c, a);
                let (p, lo) = on_expr(m, iter, a)->Ok_0;
                let (q, c2) = along_expr(m, iter, branch(o, 0), c)->Ok_0;
                let hi = on_comp_round(m, e, i + 1, var@, lo)->Ok_0;
                lemma_self(lo);
                lemma_comp_round(m, e, i + 1, var@, o, lo, lo);
                lemma_shapes(c2, lo, hi);
                lemma_comp_rounds(m, e, i + 1, var@, pick(o), branch(o, 1), c2, lo, hi);
                let c3 = along_comp_rounds(m, e, i + 1, var@, pick(o), branch(o, 1), c2)->Ok_0;
                lemma_same_grown(lo);
                lemma_same_grown(hi);
                lemma_out(c2, c3, lo, hi, lo, hi);
                lemma_then(c, a, c2, lo, c3, merged(lo, hi), k, k);
            },
            CompClause::If(cond) => {
                lemma_expr(m, cond, branch(o, 0), c, a);
                let (p, a2) = on_expr(m, cond, a)->Ok_0;
                let (q, c2) = along_expr(m, cond, branch(o, 0), c)->Ok_0;
                let a3 = on_comp(m, e, i + 1, a2)->Ok_0;
                lemma_same_grown(a2);
                if pick(o) == 0 {
                    lemma_self(a2);
                    lemma_comp(m, e, i + 1, o, a2, a2);
                    lemma_stay(c2, a2);
                    lemma_first(c2, a2, c2, a2, a3);
                    lemma_then(c, a, c2, a2, c2, merged(a2, a3), k, k);
                } else {
                    lemma_comp(m, e, i + 1, branch(o, 1), c2, a2);
                    let c3 = along_comp(m, e, i + 1, branch(o, 1), c2)->Ok_0;
                    lemma_second(c2, a2, c3, a2, a3);
                    lemma_then(c, a, c2, a2, c3, merged(a2, a3), k, k);
                }
            },
        }
    }
}

proof fn lemma_same_grown(a: EnvView)
    ensures
        grown(a, a, a.len() as int),
{
    reveal(grown);
}

/// The statements of a block that the path goes through; where it leaves early, only
/// the outer scopes count.
#[verifier::spinoff_prover]
#[verifier::rlimit(60)]
proof fn lemma_stmts(m: Module, s: Seq<Stmt>, i: nat, n: nat, o: Choices, c: EnvView, a: EnvView)
    requires
        apt(c, a, along_stmts(m, s, i, n, o, c) is Ok),
    ensures
        n >= s.len() ==> held(on_stmts(m, s, i, a), along_stmts(m, s, i, n, o, c), c, a, a.len() - 1),
        on_stmts(m, s, i, a) is Ok ==> along_stmts(m, s, i, n, o, c) is Ok && follows(
            c.drop_last(),
            a.drop_last(),
            along_stmts(m, s, i, n, o, c)->Ok_0.drop_last(),
            on_stmts(m, s, i, a)->Ok_0.drop_last(),
            a.len() - 1,
        ),
    decreases s, s.len() - i, (if n < s.len() { 1nat } else { 0nat }),
{
    let k = a.len() - 1;
    reveal(shape);
    if i >= s.len() {
        lemma_stay(c, a);
        lemma_fewer(c, a, c, a, a.len() as int, k);
        lemma_leave(c, a, c, a, k);
    } else if i >= n {
        if on_stmts(m, s, i, a) is Ok {
            let a2 = on_stmts(m, s, i, a)->Ok_0;
            lemma_self(a);
            lemma_stmts(m, s, i, s.len(), o, a, a);
            lemma_left_early(c, a, a2);
        }
    } else {
        lemma_stmt(m, s[i as int], branch(o, 0), c, a);
        if on_stmt(m, s[i as int], a) is Ok {
            let a2 = on_stmt(m, s[i as int], a)->Ok_0;
            let c2 = along_stmt(m, s[i as int], branch(o, 0), c)->Ok_0;
            lemma_stmts(m, s, i + 1, n, branch(o, 1), c2, a2);
            if on_stmts(m, s, i + 1, a2) is Ok {
                let a3 = on_stmts(m, s, i + 1, a2)->Ok_0;
                let c3 = along_stmts(m, s, i + 1, n, branch(o, 1), c2)->Ok_0;
                if n >= s.len() {
                    lemma_then(c, a, c2, a2, c3, a3, k, k);
                }
                lemma_leave(c, a, c2, a2, k);
                lemma_then(
                    c.drop_last(),
                    a.drop_last(),
                    c2.drop_last(),
                    a2.drop_last(),
                    c3.drop_last(),
                    a3.drop_last(),
                    k,
                    k,
                );
            }
        }
    }
}

proof fn lemma_left_early(c: EnvView, a: EnvView, a2: EnvView)
    requires
        shape(c, a),
        a.len() > 0,
        grown(a, a2, a.len() - 1),
    ensures
        follows(c.drop_last(), a.drop_last(), c.drop_last(), a2.drop_last(), a.len() - 1),
{
    reveal(shape);
    reveal(below);
    reveal(grown);
    reveal(fresh);
    let n = a.len() - 1;
    let (d, b, b2) = (c.drop_last(), a.drop_last(), a2.drop_last());
    assert forall|i: int, x: Seq<char>| 0 <= i < n implies #[trigger] kind(b, i, x) == kind(b2, i, x) by {
        assert(kind(a, i, x) == kind(a2, i, x));
    }
    assert forall|i: int, x: Seq<char>| 0 <= i < n && #[trigger] moved(b, i, x) implies moved(b2, i, x) by {
        assert(moved(a, i, x));
        assert(moved(a2, i, x));
    }
    assert forall|i: int, x: Seq<char>| 0 <= i < n implies (#[trigger] kind(d, i, x) is Some == kind(b2, i, x) is Some)
        && (kind(b2, i, x) == Some(true) ==> kind(d, i, x) == Some(true)) by {
        assert(kind(c, i, x) is Some == kind(a, i, x) is Some);
        assert(kind(b, i, x) == kind(b2, i, x));
    }
}

#[verifier::spinoff_prover]
#[verifier::rlimit(60)]
proof fn lemma_block(m: Module, b: Block, o: Choices, c: EnvView, a: EnvView)
    requires
        apt(c, a, along_block(m, b, o, c) is Ok),
    ensures
        expr_held(on_block(m, b, a), along_block(m, b, o, c), c, a),
    decreases b, 0nat, 0nat,
{
    if on_block(m, b, a) is Ok {
        lemma_enter_block(c, a);
        let (d, e): (EnvView, EnvView) = (c.push(Map::empty()), a.push(Map::empty()));
        let k = a.len() as int;
        lemma_stmts(m, b.stmts@, 0, pick(o), branch(o, 0), d, e);
        let e2 = on_stmts(m, b.stmts@, 0, e)->Ok_0;
        let d2 = along_stmts(m, b.stmts@, 0, pick(o), branch(o, 0), d)->Ok_0;
        match b.tail {
            None => {},
            Some(t) => {
                let (p, e3) = on_expr(m, *t, e2)->Ok_0;
                if pick(o) > b.stmts@.len() {
                    lemma_expr(m, *t, branch(o, 1), d2, e2);
                    let (q, d3) = along_expr(m, *t, branch(o, 1), d2)->Ok_0;
                    lemma_then(d, e, d2, e2, d3, e3, k, k + 1);
                    lemma_leave(d, e, d3, e3, k);
                } else {
                    lemma_self(e2);
                    lemma_self(e);
                    lemma_stmts(m, b.stmts@, 0, b.stmts@.len(), o, e, e);
                    lemma_expr(m, *t, o, e2, e2);
                    let f2 = along_stmts(m, b.stmts@, 0, b.stmts@.len(), o, e)->Ok_0;
                    let f3 = along_expr(m, *t, o, e2)->Ok_0.1;
                    lemma_leave(e2, e2, f3, e3, k + 1);
                    lemma_shapes(d2.drop_last(), e2.drop_last(), e3.drop_last());
                    lemma_stay(d2.drop_last(), e2.drop_last());
                    lemma_later(c, a, d2.drop_last(), e2.drop_last(), e3.drop_last());
                }
            },
        }
    }
}

/// The analysis goes on, and the path does not.
proof fn lemma_later(c: EnvView, a: EnvView, c2: EnvView, a2: EnvView, a3: EnvView)
    requires
        follows(c, a, c2, a2, a.len() as int),
        grown(a2, a3, a.len() as int),
    ensures
        follows(c, a, c2, a3, a.len() as int),
{
    lemma_shapes(c2, a2, a3);
    lemma_grown_on(a, a2, a3, a.len() as int);
    reveal(fresh);
    reveal(grown);
    assert forall|i: int, x: Seq<char>| 0 <= i < a.len() && #[trigger] moved(c2, i, x) implies moved(c, i, x) || (moved(
        a3,
        i,
        x,
    ) && !moved(a, i, x)) by {
        if !moved(c, i, x) {
            assert(moved(a2, i, x));
        }
    }
}

#[verifier::spinoff_prover]
#[verifier::rlimit(60)]
proof fn lemma_round(m: Module, var: Seq<char>, body: Block, o: Choices, c: EnvView, a: EnvView)
    requires
        apt(c, a, along_round(m, var, body, o, c) is Ok),
    ensures
        held(on_round(m, var, body, a), along_round(m, var, body, o, c), c, a, a.len() as int),
    decreases body, 1nat, 0nat,
{
    lemma_enter_round(c, a, var);
    let (d, b) = (bound(c.push(Map::empty()), var, true), bound(a.push(Map::empty()), var, true));
    lemma_block(m, body, o, d, b);
    if on_block(m, body, b) is Ok {
        lemma_leave(d, b, along_block(m, body, o, d)->Ok_0.1, on_block(m, body, b)->Ok_0.1, b.len() as int);
    }
}

#[verifier::spinoff_prover]
#[verifier::rlimit(60)]
proof fn lemma_rounds(
    m: Module,
    var: Seq<char>,
    body: Block,
    n: nat,
    o: Choices,
    c: EnvView,
    lo: EnvView,
    hi: EnvView,
)
    requires
        lo.len() > 0,
        grown(lo, hi, lo.len() as int),
        on_round(m, var, body, lo) == Ok::<EnvView, crate::error::ErrorView>(hi),
        on_round(m, var, body, hi) is Ok,
        shape(c, lo),
        below(c, hi) || along_rounds(m, var, body, n, o, c) is Ok,
    ensures
        along_rounds(m, var, body, n, o, c) is Ok,
        settles(c, along_rounds(m, var, body, n, o, c)->Ok_0, lo, hi),
    decreases body, 2nat, n,
{
    reveal(grown);
    lemma_shapes(c, lo, hi);
    if n == 0 {
        lemma_settled(c, lo, hi);
    } else {
        let r = along_round(m, var, body, branch(o, 0), c);
        if below(c, hi) {
            lemma_round(m, var, body, branch(o, 0), c, hi);
        }
        lemma_round(m, var, body, branch(o, 0), c, lo);
        let c2 = r->Ok_0;
        assert(grown(lo, lo, lo.len() as int));
        assert(grown(hi, hi, lo.len() as int));
        lemma_settles(c, lo, c2, hi, lo, hi);
        lemma_shapes(c2, lo, hi);
        lemma_rounds(m, var, body, (n - 1) as nat, branch(o, 1), c2, lo, hi);
        lemma_settles_on(c, c2, along_rounds(m, var, body, (n - 1) as nat, branch(o, 1), c2)->Ok_0, lo, hi);
    }
}

#[verifier::spinoff_prover]
#[verifier::rlimit(60)]
proof fn lemma_loop(m: Module, var: Seq<char>, body: Block, n: nat, o: Choices, c: EnvView, a: EnvView)
    requires
        apt(c, a, along_rounds(m, var, body, n, o, c) is Ok),
    ensures
        held(on_loop(m, var, body, a), along_rounds(m, var, body, n, o, c), c, a, a.len() as int),
    decreases body, 3nat, 0nat,
{
    if on_loop(m, var, body, a) is Ok {
        let hi = on_round(m, var, body, a)->Ok_0;
        lemma_self(a);
        lemma_round(m, var, body, o, a, a);
        lemma_shapes(c, a, hi);
        lemma_rounds(m, var, body, n, o, c, a, hi);
        lemma_same_grown(a);
        lemma_same_grown(hi);
        lemma_out(c, along_rounds(m, var, body, n, o, c)->Ok_0, a, hi, a, hi);
    }
}

/// The rounds of a conditional loop. The condition is judged from `lo` and from
/// `hi`, the body from `mid` and from `far`.
#[verifier::spinoff_prover]
#[verifier::rlimit(60)]
proof fn lemma_turns(
    m: Module,
    s: Stmt,
    n: nat,
    o: Choices,
    c: EnvView,
    lo: EnvView,
    mid: EnvView,
    hi: EnvView,
    far: EnvView,
)
    requires
        s matches Stmt::While { cond, body, span } && ({
            &&& on_expr(m, cond, lo) matches Ok(x) && x.1 == mid
            &&& on_block(m, body, mid) matches Ok(y) && y.1 == hi
            &&& on_expr(m, cond, hi) matches Ok(z) && z.1 == far
            &&& on_block(m, body, far) is Ok
        }),
        lo.len() > 0,
        grown(lo, mid, lo.len() as int),
        grown(mid, hi, lo.len() as int),
        grown(hi, far, lo.len() as int),
        shape(c, lo),
        below(c, hi) || along_turns(m, s, n, o, c) is Ok,
    ensures
        along_turns(m, s, n, o, c) is Ok,
        settles(c, along_turns(m, s, n, o, c)->Ok_0, lo, hi),
    decreases s, 0nat, n,
{
    let k = lo.len() as int;
    assert(mid.len() == k && hi.len() == k && far.len() == k) by {
        reveal(grown);
    }
    lemma_grown_on(lo, mid, hi, k);
    lemma_same_grown(lo);
    lemma_same_grown(hi);
    lemma_shapes(c, lo, mid);
    lemma_shapes(c, lo, hi);
    lemma_shapes(c, hi, far);
    if n == 0 {
        lemma_settled(c, lo, hi);
    } else {
        match s {
            Stmt::While { cond, body, span } => {
                if below(c, hi) {
                    lemma_block(m, body, branch(o, 0), c, far);
                }
                lemma_block(m, body, branch(o, 0), c, mid);
                let c2 = along_block(m, body, branch(o, 0), c)->Ok_0.1;
                lemma_settles(c, mid, c2, hi, lo, hi);
                if below(c, hi) {
                    lemma_expr(m, cond, branch(o, 1), c2, hi);
                }
                lemma_shapes(c2, lo, hi);
                lemma_expr(m, cond, branch(o, 1), c2, lo);
                let c3 = along_expr(m, cond, branch(o, 1), c2)->Ok_0.1;
                lemma_settles(c2, lo, c3, mid, lo, hi);
                lemma_settles_on(c, c2, c3, lo, hi);
                lemma_shapes(c3, lo, hi);
                lemma_turns(m, s, (n - 1) as nat, branch(o, 2), c3, lo, mid, hi, far);
                lemma_settles_on(c, c3, along_turns(m, s, (n - 1) as nat, branch(o, 2), c3)->Ok_0, lo, hi);
            },
            _ => {},
        }
    }
}

#[verifier::spinoff_prover]
#[verifier::rlimit(60)]
proof fn lemma_while(m: Module, s: Stmt, o: Choices, c: EnvView, a: EnvView)
    requires
        s is While,
        apt(c, a, along_stmt(m, s, o, c) is Ok),
    ensures
        held(on_stmt(m, s, a), along_stmt(m, s, o, c), c, a, a.len() as int),
    decreases s, 0nat, pick(o) + 1,
{
    let k = a.len() as int;
    match s {
        Stmt::While { cond, body, span } => {
            if on_stmt(m, s, a) is Ok {
                let mid = on_expr(m, cond, a)->Ok_0.1;
                let hi = on_block(m, body, mid)->Ok_0.1;
                let far = on_expr(m, cond, hi)->Ok_0.1;
                lemma_self(a);
                lemma_self(mid);
                lemma_self(hi);
                lemma_expr(m, cond, o, a, a);
                lemma_block(m, body, o, mid, mid);
                lemma_expr(m, cond, o, hi, hi);
                lemma_expr(m, cond, branch(o, 0), c, a);
                let c2 = along_expr(m, cond, branch(o, 0), c)->Ok_0.1;
                lemma_same_grown(a);
                lemma_same_grown(hi);
                lemma_grown_on(a, mid, hi, k);
                lemma_grown_on(mid, hi, far, k);
                lemma_grown_on(a, hi, far, k);
                lemma_shapes(c2, a, mid);
                lemma_shapes(c2, mid, hi);
                lemma_settles(c, a, c2, mid, a, hi);
                lemma_turns(m, s, pick(o), branch(o, 1), c2, a, mid, hi, far);
                let c3 = along_turns(m, s, pick(o), branch(o, 1), c2)->Ok_0;
                lemma_settles_on(c, c2, c3, a, hi);
                lemma_out(c, c3, a, hi, mid, far);
            }
        },
        _ => {},
    }
}

#[verifier::spinoff_prover]
#[verifier::rlimit(100)]
proof fn lemma_stmt(m: Module, s: Stmt, o: Choices, c: EnvView, a: EnvView)
    requires
        apt(c, a, along_stmt(m, s, o, c) is Ok),
    ensures
        held(on_stmt(m, s, a), along_stmt(m, s, o, c), c, a, a.len() - 1),
    decreases s, 1nat, 0nat,
{
    let k = a.len() as int;
    lemma_stay(c, a);
    lemma_fewer(c, a, c, a, k, k - 1);
    if on_stmt(m, s, a) is Ok {
        let a9 = on_stmt(m, s, a)->Ok_0;
        match s {
            Stmt::Let { name, ty, value, span } => {
                lemma_expr(m, value, o, c, a);
                let (p, a2) = on_expr(m, value, a)->Ok_0;
                let (q, c2) = along_expr(m, value, o, c)->Ok_0;
                let p2 = match ty {
                    Some(t) => copyable(t),
                    None => p,
                };
                let q2 = match ty {
                    Some(t) => copyable(t),
                    None => q,
                };
                lemma_bind(c2, a2, name@, q2, p2);
                lemma_then(c, a, c2, a2, bound(c2, name@, q2), bound(a2, name@, p2), k, k - 1);
            },
            Stmt::Assign { target, value, span } => {
                lemma_target(m, target, branch(o, 0), c, a);
                let a2 = on_target(m, target, a)->Ok_0;
                let c2 = along_target(m, target, branch(o, 0), c)->Ok_0;
                lemma_expr(m, value, branch(o, 1), c2, a2);
                let c3 = along_expr(m, value, branch(o, 1), c2)->Ok_0.1;
                lemma_then(c, a, c2, a2, c3, a9, k, k);
                lemma_fewer(c, a, c3, a9, k, k - 1);
            },
            Stmt::Return { value, span } => match value {
                Some(e) => {
                    lemma_expr(m, e, o, c, a);
                    lemma_fewer(c, a, along_expr(m, e, o, c)->Ok_0.1, a9, k, k - 1);
                },
                None => {},
            },
            Stmt::If(i) => {
                lemma_if(m, i, o, c, a);
                lemma_fewer(c, a, along_if(m, i, o, c)->Ok_0.1, a9, k, k - 1);
            },
            Stmt::While { cond, body, span } => {
                lemma_while(m, s, o, c, a);
                lemma_fewer(c, a, along_stmt(m, s, o, c)->Ok_0, a9, k, k - 1);
            },
            Stmt::For { var, iter, body, span } => {
                lemma_expr(m, iter, branch(o, 0), c, a);
                let a2 = on_expr(m, iter, a)->Ok_0.1;
                let c2 = along_expr(m, iter, branch(o, 0), c)->Ok_0.1;
                lemma_loop(m, var@, body, pick(o), branch(o, 1), c2, a2);
                let c3 = along_rounds(m, var@, body, pick(o), branch(o, 1), c2)->Ok_0;
                lemma_then(c, a, c2, a2, c3, a9, k, k);
                lemma_fewer(c, a, c3, a9, k, k - 1);
            },
            Stmt::ForRange { var, start, end, inclusive, body, span } => {
                lemma_expr(m, start, branch(o, 0), c, a);
                let a2 = on_expr(m, start, a)->Ok_0.1;
                let c2 = along_expr(m, start, branch(o, 0), c)->Ok_0.1;
                lemma_expr(m, end, branch(o, 1), c2, a2);
                let a3 = on_expr(m, end, a2)->Ok_0.1;
                let c3 = along_expr(m, end, branch(o, 1), c2)->Ok_0.1;
                lemma_then(c, a, c2, a2, c3, a3, k, k);
                lemma_loop(m, var@, body, pick(o), branch(o, 2), c3, a3);
                let c4 = along_rounds(m, var@, body, pick(o), branch(o, 2), c3)->Ok_0;
                lemma_then(c, a, c3, a3, c4, a9, k, k);
                lemma_fewer(c, a, c4, a9, k, k - 1);
            },
            Stmt::Break(_) | Stmt::Continue(_) | Stmt::Placeholder(_) => {},
            Stmt::Expr(e) => {
                lemma_expr(m, e, o, c, a);
                lemma_fewer(c, a, along_expr(m, e, o, c)->Ok_0.1, a9, k, k - 1);
            },
            Stmt::Parallel { stmts, span } => {
                lemma_stmts(m, stmts@, 0, stmts@.len(), o, c, a);
            },
            Stmt::ParallelForTo { id_var, source, output, body, span } => {
                lemma_expr(m, source, branch(o, 0), c, a);
                let a2 = on_expr(m, source, a)->Ok_0.1;
                let c2 = along_expr(m, source, branch(o, 0), c)->Ok_0.1;
                lemma_target(m, output, branch(o, 1), c2, a2);
                let a3 = on_target(m, output, a2)->Ok_0;
                let c3 = along_target(m, output, branch(o, 1), c2)->Ok_0;
                lemma_then(c, a, c2, a2, c3, a3, k, k);
                lemma_loop(m, id_var@, body, pick(o), branch(o, 2), c3, a3);
                let c4 = along_rounds(m, id_var@, body, pick(o), branch(o, 2), c3)->Ok_0;
                lemma_then(c, a, c3, a3, c4, a9, k, k);
                lemma_fewer(c, a, c4, a9, k, k - 1);
            },
            Stmt::Emit { value, span } => {
                lemma_expr(m, *value, o, c, a);
                lemma_fewer(c, a, along_expr(m, *value, o, c)->Ok_0.1, a9, k, k - 1);
            },
            Stmt::Delete { target, span } => {
                lemma_expr(m, target, o, c, a);
                lemma_fewer(c, a, along_expr(m, target, o, c)->Ok_0.1, a9, k, k - 1);
            },
            Stmt::LetTuple { names, value, span } => {
                lemma_expr(m, value, o, c, a);
                let a2 = on_expr(m, value, a)->Ok_0.1;
                let c2 = along_expr(m, value, o, c)->Ok_0.1;
                lemma_bind_all(c2, a2, names@, names@.len());
                lemma_then(c, a, c2, a2, bound_all(c2, names@, names@.len()), a9, k, k - 1);
            },
        }
    }
}

#[verifier::spinoff_prover]
#[verifier::rlimit(60)]
proof fn lemma_target(m: Module, target: Expr, o: Choices, c: EnvView, a: EnvView)
    requires
        apt(c, a, along_target(m, target, o, c) is Ok),
    ensures
        held(on_target(m, target, a), along_target(m, target, o, c), c, a, a.len() as int),
    decreases target, 1nat, 0nat,
{
    lemma_stay(c, a);
    match target.kind {
        ExprKind::Index { target: t, key } => lemma_expr(m, *key, o, c, a),
        _ => {},
    }
}

#[verifier::spinoff_prover]
#[verifier::rlimit(60)]
proof fn lemma_if(m: Module, i: IfStmt, o: Choices, c: EnvView, a: EnvView)
    requires
        apt(c, a, along_if(m, i, o, c) is Ok),
    ensures
        expr_held(on_if(m, i, a), along_if(m, i, o, c), c, a),
    decreases i, 0nat, 0nat,
{
    lemma_expr(m, i.cond, branch(o, 0), c, a);
    if on_if(m, i, a) is Ok {
        let a2 = on_expr(m, i.cond, a)->Ok_0.1;
        let c2 = along_expr(m, i.cond, branch(o, 0), c)->Ok_0.1;
        let k = a.len() as int;
        let p = on_block(m, i.then_block, a2);
        let q = on_else(m, i.else_branch, a2);
        lemma_self(a2);
        if pick(o) == 0 {
            lemma_block(m, i.then_block, branch(o, 1), c2, a2);
            lemma_else(m, i.else_branch, o, a2, a2);
            lemma_first(c2, a2, along_block(m, i.then_block, branch(o, 1), c2)->Ok_0.1, p->Ok_0.1, q->Ok_0.1);
        } else {
            lemma_block(m, i.then_block, o, a2, a2);
            lemma_else(m, i.else_branch, branch(o, 1), c2, a2);
            lemma_second(c2, a2, along_else(m, i.else_branch, branch(o, 1), c2)->Ok_0.1, p->Ok_0.1, q->Ok_0.1);
        }
        lemma_then(c, a, c2, a2, along_if(m, i, o, c)->Ok_0.1, on_if(m, i, a)->Ok_0.1, k, k);
    }
}

#[verifier::spinoff_prover]
#[verifier::rlimit(60)]
proof fn lemma_else(m: Module, e: ElseBranch, o: Choices, c: EnvView, a: EnvView)
    requires
        apt(c, a, along_else(m, e, o, c) is Ok),
    ensures
        expr_held(on_else(m, e, a), along_else(m, e, o, c), c, a),
    decreases e, 0nat, 0nat,
{
    match e {
        ElseBranch::Absent => lemma_stay(c, a),
        ElseBranch::Block(b) => lemma_block(m, b, o, c, a),
        ElseBranch::If(i) => lemma_if(m, *i, o, c, a),
    }
}

#[verifier::spinoff_prover]
#[verifier::rlimit(100)]
proof fn lemma_expr(m: Module, e: Expr, o: Choices, c: EnvView, a: EnvView)
    requires
        apt(c, a, along_expr(m, e, o, c) is Ok),
    ensures
        expr_held(on_expr(m, e, a), along_expr(m, e, o, c), c, a),
    decreases e, 3 * clause_count(e) + 3, 0nat,
{
    let k = a.len() as int;
    lemma_stay(c, a);
    if on_expr(m, e, a) is Ok {
        let a9 = on_expr(m, e, a)->Ok_0.1;
        match e.kind {
            ExprKind::Int(_)
            | ExprKind::UInt(_)
            | ExprKind::Float(_)
            | ExprKind::JsonNull
            | ExprKind::I32(_)
            | ExprKind::U32(_)
            | ExprKind::U64(_)
            | ExprKind::U128(_)
            | ExprKind::Bool(_)
            | ExprKind::Str(_)
            | ExprKind::Prev => {},
            ExprKind::JsonObject(fs) => lemma_fields(m, fs@, 0, o, c, a),
            ExprKind::JsonArray(es) => lemma_exprs(m, es@, 0, o, c, a),
            ExprKind::Ident(name) => lemma_use(m, name@, e.span, c, a),
            ExprKind::Binary { op, lhs, rhs } => {
                lemma_expr(m, *lhs, branch(o, 0), c, a);
                let a2 = on_expr(m, *lhs, a)->Ok_0.1;
                let c2 = along_expr(m, *lhs, branch(o, 0), c)->Ok_0.1;
                lemma_expr(m, *rhs, branch(o, 1), c2, a2);
                lemma_then(c, a, c2, a2, along_expr(m, *rhs, branch(o, 1), c2)->Ok_0.1, a9, k, k);
            },
            ExprKind::Unary { op, operand } => lemma_expr(m, *operand, o, c, a),
            ExprKind::DynCall { target_ident, method, args, method_is_view, method_is_pure } => lemma_exprs(
                m,
                args@,
                0,
                o,
                c,
                a,
            ),
            ExprKind::Call { module, name, args } => lemma_exprs(m, args@, 0, o, c, a),
            ExprKind::Index { target, key } => {
                lemma_expr(m, *key, branch(o, 0), c, a);
                let a2 = on_expr(m, *key, a)->Ok_0.1;
                let c2 = along_expr(m, *key, branch(o, 0), c)->Ok_0.1;
                lemma_expr(m, *target, branch(o, 1), c2, a2);
                lemma_then(c, a, c2, a2, along_expr(m, *target, branch(o, 1), c2)->Ok_0.1, a9, k, k);
            },
            ExprKind::Array(es) => lemma_exprs(m, es@, 0, o, c, a),
            ExprKind::StructLit { name, fields } => lemma_fields(m, fields@, 0, o, c, a),
            ExprKind::Field { target, name } => lemma_peek(m, *target, o, c, a),
            ExprKind::Pipe { head, step } => {
                lemma_expr(m, *head, branch(o, 0), c, a);
                let a2 = on_expr(m, *head, a)->Ok_0.1;
                let c2 = along_expr(m, *head, branch(o, 0), c)->Ok_0.1;
                lemma_expr(m, *step, branch(o, 1), c2, a2);
                lemma_then(c, a, c2, a2, along_expr(m, *step, branch(o, 1), c2)->Ok_0.1, a9, k, k);
            },
            ExprKind::ListComp { mapper, clauses } => lemma_comp(m, e, 0, o, c, a),
            ExprKind::SetComp { mapper, clauses } => lemma_comp(m, e, 0, o, c, a),
            ExprKind::DictComp { key, value, clauses } => lemma_comp(m, e, 0, o, c, a),
            ExprKind::SetLit(es) => lemma_exprs(m, es@, 0, o, c, a),
            ExprKind::DictLit(ps) => lemma_pairs(m, ps@, 0, o, c, a),
            ExprKind::TupleLit(es) => lemma_exprs(m, es@, 0, o, c, a),
            ExprKind::TupleIndex { target, index } => lemma_expr(m, *target, o, c, a),
            ExprKind::EnumCtor { enum_name, variant, args } => lemma_exprs(m, args@, 0, o, c, a),
            ExprKind::Match { scrut, arms } => {
                lemma_expr(m, *scrut, branch(o, 0), c, a);
                let a2 = on_expr(m, *scrut, a)->Ok_0.1;
                let c2 = along_expr(m, *scrut, branch(o, 0), c)->Ok_0.1;
                let p = branch(o, 1);
                lemma_arms(m, arms@, 0, pick(p), branch(p, 0), c2, a2);
                lemma_then(c, a, c2, a2, along_arms(m, arms@, p, c2)->Ok_0.1, a9, k, k);
            },
            ExprKind::Block(b) => lemma_block(m, b, o, c, a),
            ExprKind::If { cond, then_block, else_branch } => {
                lemma_expr(m, *cond, branch(o, 0), c, a);
                let a2 = on_expr(m, *cond, a)->Ok_0.1;
                let c2 = along_expr(m, *cond, branch(o, 0), c)->Ok_0.1;
                let p = on_block(m, then_block, a2);
                let q = on_else(m, else_branch, a2);
                lemma_self(a2);
                if pick(o) == 0 {
                    lemma_block(m, then_block, branch(o, 1), c2, a2);
                    lemma_else(m, else_branch, o, a2, a2);
                    lemma_first(c2, a2, along_block(m, then_block, branch(o, 1), c2)->Ok_0.1, p->Ok_0.1, q->Ok_0.1);
                } else {
                    lemma_block(m, then_block, o, a2, a2);
                    lemma_else(m, else_branch, branch(o, 1), c2, a2);
                    lemma_second(c2, a2, along_else(m, else_branch, branch(o, 1), c2)->Ok_0.1, p->Ok_0.1, q->Ok_0.1);
                }
                lemma_then(c, a, c2, a2, along_expr(m, e, o, c)->Ok_0.1, a9, k, k);
            },
        }
    }
}

proof fn lemma_start(f: FnDef, n: nat)
    requires
        n <= f.params@.len(),
    ensures
        start_env(f, n).len() == 1,
    decreases n,
{
    if n > 0 {
        lemma_start(f, (n - 1) as nat);
    }
}

/// Where the analysis finds no misuse in a function, no path through the function
/// uses a value that it has moved.
pub proof fn no_path_uses_a_moved_value(m: Module, f: FnDef, o: Choices)
    requires
        fn_misuse(m, f) is None,
    ensures
        along_fn(m, f, o) is Ok,
{
    let a = start_env(f, f.params@.len());
    lemma_start(f, f.params@.len());
    lemma_self(a);
    lemma_block(m, f.body, o, a, a);
}

} // verus!
