//! Ownership analysis.
//!
//! A value of a type that cannot be copied is moved by using its name as an
//! expression; using it again is an error. Each branch is judged from where the
//! branches part, and where they join, a binding counts as moved if one of them
//! moved it. The body of a loop is judged for a second round too, so it moves
//! nothing that was bound outside it. A block, a conditional and a match are as
//! copyable as the values that they may give.

use vstd::prelude::*;
use crate::ast::{
    copyable, Block, CompClause, ElseBranch, Expr, ExprKind, FnDef, IfStmt, MatchArm, MatchPattern,
    Module, Stmt, Type,
};
use crate::error::{Error, ErrorKind, ErrorView};
use crate::tables::{find_last, place};
use crate::text::{concat3, decimal, push_decimal, same};
use crate::token::Span;

verus! {

/// What is known of a name in scope: whether its value can be copied, and where
/// it was moved, if it was.
#[derive(Debug, Clone, Copy, PartialEq, Eq, Structural)]
pub struct Binding {
    pub copy: bool,
    pub moved_at: Option<Span>,
}

/// The names of one scope.
pub type ScopeView = Map<Seq<char>, Binding>;

/// The scopes, outermost first.
pub type EnvView = Seq<ScopeView>;

pub open spec fn scope_view(s: Seq<(String, Binding)>) -> ScopeView
    decreases s.len(),
{
    if s.len() == 0 {
        Map::empty()
    } else {
        scope_view(s.drop_last()).insert(s.last().0@, s.last().1)
    }
}

pub open spec fn env_view(env: Seq<Vec<(String, Binding)>>) -> EnvView {
    Seq::new(env.len(), |i: int| scope_view(env[i]@))
}

proof fn lemma_scope_lookup(s: Seq<(String, Binding)>, name: Seq<char>)
    ensures
        scope_view(s).dom().contains(name) <==> place(s, name) is Some,
        place(s, name) matches Some(k) ==> 0 <= k < s.len() && scope_view(s)[name] == s[k].1 && s[k].0@
            == name,
    decreases s.len(),
{
    if s.len() > 0 {
        lemma_scope_lookup(s.drop_last(), name);
    }
}

proof fn lemma_scope_update(s: Seq<(String, Binding)>, name: Seq<char>, x: (String, Binding))
    requires
        place(s, name) is Some,
        x.0@ == name,
    ensures
        scope_view(s.update(place(s, name)->0, x)) == scope_view(s).insert(name, x.1),
    decreases s.len(),
{
    lemma_scope_lookup(s, name);
    let k = place(s, name)->0;
    let u = s.update(k, x);
    if s.last().0@ == name {
        assert(u.drop_last() =~= s.drop_last());
        assert(scope_view(u) =~= scope_view(s).insert(name, x.1));
    } else {
        lemma_scope_update(s.drop_last(), name, x);
        assert(u.drop_last() =~= s.drop_last().update(k, x));
        assert(scope_view(u) =~= scope_view(s).insert(name, x.1));
    }
}

/// The innermost scope that holds a name.
pub open spec fn innermost(env: EnvView, name: Seq<char>) -> Option<int>
    decreases env.len(),
{
    if env.len() == 0 {
        None
    } else if env.last().dom().contains(name) {
        Some(env.len() - 1)
    } else {
        innermost(env.drop_last(), name)
    }
}

/// The environment with a name added to the innermost scope.
pub open spec fn bound(env: EnvView, name: Seq<char>, copy: bool) -> EnvView {
    env.update(env.len() - 1, env.last().insert(name, Binding { copy, moved_at: None }))
}

/// The environment with the first `n` of some names added as copyable.
pub open spec fn bound_all(env: EnvView, names: Seq<String>, n: nat) -> EnvView
    decreases n,
    when n <= names.len()
{
    if n == 0 {
        env
    } else {
        bound(bound_all(env, names, (n - 1) as nat), names[n - 1]@, true)
    }
}

/// One scope after a join: the names of the first branch, moved if either
/// branch moved them.
pub open spec fn merged_scope(a: ScopeView, b: ScopeView) -> ScopeView {
    Map::new(
        |k: Seq<char>| a.dom().contains(k),
        |k: Seq<char>|
            Binding {
                copy: a[k].copy,
                moved_at: match a[k].moved_at {
                    Some(s) => Some(s),
                    None => if b.dom().contains(k) {
                        b[k].moved_at
                    } else {
                        None
                    },
                },
            },
    )
}

/// The scopes after a join.
pub open spec fn merged(a: EnvView, b: EnvView) -> EnvView {
    Seq::new(
        if a.len() <= b.len() {
            a.len()
        } else {
            b.len()
        },
        |i: int| merged_scope(a[i], b[i]),
    )
}

/// After a join a binding is moved exactly if one of the branches moved it.
pub proof fn merge_moves_if_either_moved(a: EnvView, b: EnvView, i: int, name: Seq<char>)
    requires
        a.len() == b.len(),
        0 <= i < a.len(),
        a[i].dom().contains(name),
        b[i].dom().contains(name),
    ensures
        merged(a, b)[i].dom().contains(name),
        merged(a, b)[i][name].moved_at is Some <==> a[i][name].moved_at is Some
            || b[i][name].moved_at is Some,
{
}

/// The type of an ambient name: a constant, or else a state.
pub open spec fn ambient_type(m: Module, name: Seq<char>) -> Option<Type> {
    match place(m.consts@, name) {
        Some(k) => Some(m.consts@[k].ty),
        None => match place(m.states@, name) {
            Some(k) => Some(m.states@[k].ty),
            None => None,
        },
    }
}

/// The builtin functions.
pub open spec fn builtin(name: Seq<char>) -> bool {
    name == "resource"@
        || name == "unwrap"@
        || name == "address"@
        || name == "len"@
        || name == "assert"@
        || name == "msg_sender"@
        || name == "block_timestamp"@
        || name == "block_number"@
        || name == "to_bytes"@
        || name == "bytes_len"@
        || name == "bytes_concat"@
        || name == "bytes_eq"@
        || name == "bytes_slice"@
        || name == "to_be_bytes"@
        || name == "bit_not_bytes"@
        || name == "string_concat"@
        || name == "pmap_contains"@
        || name == "pvec_push"@
        || name == "pvec_len"@
        || name == "pmap_entries"@
        || name == "pmap_keys"@
        || name == "pmap_values"@
        || name == "pvec_to_array"@
        || name == "sum"@
        || name == "max"@
        || name == "min"@
        || name == "pbtree_contains"@
        || name == "pbtree_range"@
        || name == "parse_json"@
        || name == "json_stringify"@
        || name == "json_get_field"@
        || name == "json_get_index"@
        || name == "json_to_string"@
        || name == "json_to_i64"@
        || name == "json_to_u64"@
        || name == "json_to_bool"@
        || name == "json_is_null"@
        || name == "string_slice"@
        || name == "string_contains"@
        || name == "i64"@
        || name == "i32"@
        || name == "u32"@
        || name == "u64"@
        || name == "u128"@
        || name == "set_insert"@
        || name == "set_remove"@
        || name == "set_contains"@
        || name == "set_len"@
        || name == "dict_set"@
        || name == "dict_remove"@
        || name == "dict_get"@
        || name == "dict_has"@
        || name == "dict_len"@
}

#[verifier::rlimit(30)]
fn is_builtin(name: &str) -> (r: bool)
    ensures
        r == builtin(name@),
{
    same(name, "resource")
        || same(name, "unwrap")
        || same(name, "address")
        || same(name, "len")
        || same(name, "assert")
        || same(name, "msg_sender")
        || same(name, "block_timestamp")
        || same(name, "block_number")
        || same(name, "to_bytes")
        || same(name, "bytes_len")
        || same(name, "bytes_concat")
        || same(name, "bytes_eq")
        || same(name, "bytes_slice")
        || same(name, "to_be_bytes")
        || same(name, "bit_not_bytes")
        || same(name, "string_concat")
        || same(name, "pmap_contains")
        || same(name, "pvec_push")
        || same(name, "pvec_len")
        || same(name, "pmap_entries")
        || same(name, "pmap_keys")
        || same(name, "pmap_values")
        || same(name, "pvec_to_array")
        || same(name, "sum")
        || same(name, "max")
        || same(name, "min")
        || same(name, "pbtree_contains")
        || same(name, "pbtree_range")
        || same(name, "parse_json")
        || same(name, "json_stringify")
        || same(name, "json_get_field")
        || same(name, "json_get_index")
        || same(name, "json_to_string")
        || same(name, "json_to_i64")
        || same(name, "json_to_u64")
        || same(name, "json_to_bool")
        || same(name, "json_is_null")
        || same(name, "string_slice")
        || same(name, "string_contains")
        || same(name, "i64")
        || same(name, "i32")
        || same(name, "u32")
        || same(name, "u64")
        || same(name, "u128")
        || same(name, "set_insert")
        || same(name, "set_remove")
        || same(name, "set_contains")
        || same(name, "set_len")
        || same(name, "dict_set")
        || same(name, "dict_remove")
        || same(name, "dict_get")
        || same(name, "dict_has")
        || same(name, "dict_len")
}

/// Whether the result of a function can be copied, if there is such a function.
/// Functions of the module hide imports, and those hide builtins.
pub open spec fn result_copy(m: Module, name: Seq<char>) -> Option<bool> {
    match place(m.functions@, name) {
        Some(k) => Some(copyable(m.functions@[k].return_type)),
        None => match place(m.imports@, name) {
            Some(k) => Some(copyable(m.imports@[k].return_type)),
            None => if builtin(name) {
                Some(name != "resource"@)
            } else {
                None
            },
        },
    }
}

pub open spec fn type_error(msg: Seq<char>, span: Span) -> ErrorView {
    ErrorView { kind: ErrorKind::Type, msg, span }
}

pub open spec fn moved_message(name: Seq<char>, prev: Span) -> Seq<char> {
    "value '"@ + name + "' used after move (moved at "@ + decimal(prev.start as nat) + ".."@ + decimal(
        prev.end as nat,
    ) + ")"@
}

fn moved_error(name: &str, prev: Span, span: Span) -> (r: Error)
    ensures
        r@ == type_error(moved_message(name@, prev), span),
{
    let mut msg = concat3("value '", name, "' used after move (moved at ");
    push_decimal(&mut msg, prev.start as u128);
    msg.append("..");
    push_decimal(&mut msg, prev.end as u128);
    msg.append(")");
    Error::new(ErrorKind::Type, msg, span)
}

/// The outcome for an expression: whether its value can be copied, and the
/// environment after it.
pub type ExprOutcome = Result<(bool, EnvView), ErrorView>;

/// The outcome for code without a value.
pub type Outcome = Result<EnvView, ErrorView>;

/// The outcome of using a name.
pub open spec fn use_name(m: Module, name: Seq<char>, span: Span, env: EnvView) -> ExprOutcome {
    match innermost(env, name) {
        Some(i) => {
            let b = env[i][name];
            match b.moved_at {
                Some(prev) => Err(type_error(moved_message(name, prev), span)),
                None => Ok(
                    (
                        b.copy,
                        if b.copy {
                            env
                        } else {
                            env.update(
                                i,
                                env[i].insert(name, Binding { copy: false, moved_at: Some(span) }),
                            )
                        },
                    ),
                ),
            }
        },
        None => match ambient_type(m, name) {
            Some(t) => Ok((copyable(t), env)),
            None => Err(type_error("undefined variable '"@ + name + "'"@, span)),
        },
    }
}

/// The environment of an outcome.
pub open spec fn only_env(r: ExprOutcome) -> Outcome {
    match r {
        Ok((c, env)) => Ok(env),
        Err(e) => Err(e),
    }
}

/// An outcome with a copyable value.
pub open spec fn as_copy(r: Outcome) -> ExprOutcome {
    match r {
        Ok(env) => Ok((true, env)),
        Err(e) => Err(e),
    }
}

/// The clauses of a comprehension.
pub open spec fn clauses_of(e: Expr) -> Seq<CompClause> {
    match e.kind {
        ExprKind::ListComp { mapper, clauses } => clauses@,
        ExprKind::SetComp { mapper, clauses } => clauses@,
        ExprKind::DictComp { key, value, clauses } => clauses@,
        _ => seq![],
    }
}

pub open spec fn clause_count(e: Expr) -> nat {
    clauses_of(e).len()
}

/// Two outcomes joined: the class of both, and what either moved.
pub open spec fn joined(a: ExprOutcome, b: ExprOutcome) -> ExprOutcome {
    match a {
        Err(e) => Err(e),
        Ok((c, env)) => match b {
            Err(e) => Err(e),
            Ok((c2, other)) => Ok((c && c2, merged(env, other))),
        },
    }
}

/// An outcome without the innermost scope.
pub open spec fn left(r: ExprOutcome) -> ExprOutcome {
    match r {
        Err(e) => Err(e),
        Ok((c, env)) => Ok((c, env.drop_last())),
    }
}

/// Reading a field looks at the value without moving it.
pub open spec fn peek(m: Module, e: Expr, env: EnvView) -> Outcome
    decreases e, 2 * clause_count(e) + 3,
{
    match e.kind {
        ExprKind::Ident(name) => match innermost(env, name@) {
            Some(i) => match env[i][name@].moved_at {
                Some(prev) => Err(type_error(moved_message(name@, prev), e.span)),
                None => Ok(env),
            },
            None => Ok(env),
        },
        ExprKind::Field { target, name } => peek(m, *target, env),
        _ => only_env(on_expr(m, e, env)),
    }
}

pub open spec fn on_exprs(m: Module, s: Seq<Expr>, i: nat, env: EnvView) -> Outcome
    decreases s, s.len() - i,
{
    if i >= s.len() {
        Ok(env)
    } else {
        match on_expr(m, s[i as int], env) {
            Err(e) => Err(e),
            Ok((c, env2)) => on_exprs(m, s, i + 1, env2),
        }
    }
}

pub open spec fn on_fields(m: Module, s: Seq<(String, Expr)>, i: nat, env: EnvView) -> Outcome
    decreases s, s.len() - i,
{
    if i >= s.len() {
        Ok(env)
    } else {
        match on_expr(m, s[i as int].1, env) {
            Err(e) => Err(e),
            Ok((c, env2)) => on_fields(m, s, i + 1, env2),
        }
    }
}

pub open spec fn on_pairs(m: Module, s: Seq<(Expr, Expr)>, i: nat, env: EnvView) -> Outcome
    decreases s, s.len() - i,
{
    if i >= s.len() {
        Ok(env)
    } else {
        match on_expr(m, s[i as int].0, env) {
            Err(e) => Err(e),
            Ok((c, env2)) => match on_expr(m, s[i as int].1, env2) {
                Err(e) => Err(e),
                Ok((c2, env3)) => on_pairs(m, s, i + 1, env3),
            },
        }
    }
}

/// The arms of a match, each judged from the same state.
pub open spec fn on_arms(m: Module, s: Seq<MatchArm>, i: nat, env: EnvView) -> ExprOutcome
    decreases s, s.len() - i,
{
    if i >= s.len() {
        Ok((true, env))
    } else {
        joined(
            left(on_expr(m, s[i as int].body, with_pattern(env, s[i as int].pattern))),
            on_arms(m, s, i + 1, env),
        )
    }
}

/// The environment with a new scope that holds a pattern's names.
pub open spec fn with_pattern(env: EnvView, p: MatchPattern) -> EnvView {
    match p {
        MatchPattern::Wildcard => env.push(Map::empty()),
        MatchPattern::EnumVariant { enum_name, variant, bindings } => bound_all(
            env.push(Map::empty()),
            bindings@,
            bindings@.len(),
        ),
    }
}

/// What a comprehension computes for each element.
pub open spec fn on_leaf(m: Module, e: Expr, env: EnvView) -> Outcome
    decreases e, 0nat,
{
    match e.kind {
        ExprKind::ListComp { mapper, clauses } => only_env(on_expr(m, *mapper, env)),
        ExprKind::SetComp { mapper, clauses } => only_env(on_expr(m, *mapper, env)),
        ExprKind::DictComp { key, value, clauses } => match on_expr(m, *key, env) {
            Err(x) => Err(x),
            Ok((c, env2)) => only_env(on_expr(m, *value, env2)),
        },
        _ => Ok(env),
    }
}

/// One round of a loop of a comprehension: what is inside it, in a scope that
/// holds its variable.
pub open spec fn on_comp_round(m: Module, e: Expr, i: nat, var: Seq<char>, env: EnvView) -> Outcome
    decreases e, 2 * (clause_count(e) - i) + 2,
{
    if i > clause_count(e) {
        Ok(env)
    } else {
        match on_comp(m, e, i, bound(env.push(Map::empty()), var, true)) {
            Err(x) => Err(x),
            Ok(env2) => Ok(env2.drop_last()),
        }
    }
}

/// A comprehension from its `i`-th clause on: a loop runs what is inside it any
/// number of times, a condition once or not at all.
pub open spec fn on_comp(m: Module, e: Expr, i: nat, env: EnvView) -> Outcome
    decreases e, 2 * (clause_count(e) - i) + 1,
{
    if i > clause_count(e) {
        Ok(env)
    } else if i == clause_count(e) {
        on_leaf(m, e, env)
    } else {
        match clauses_of(e)[i as int] {
            CompClause::For { var, iter } => match on_expr(m, iter, env) {
                Err(x) => Err(x),
                Ok((c, env2)) => match on_comp_round(m, e, i + 1, var@, env2) {
                    Err(x) => Err(x),
                    Ok(env3) => match on_comp_round(m, e, i + 1, var@, env3) {
                        Err(x) => Err(x),
                        Ok(env4) => Ok(merged(env2, env3)),
                    },
                },
            },
            CompClause::If(cond) => match on_expr(m, cond, env) {
                Err(x) => Err(x),
                Ok((c, env2)) => match on_comp(m, e, i + 1, env2) {
                    Err(x) => Err(x),
                    Ok(env3) => Ok(merged(env2, env3)),
                },
            },
        }
    }
}

pub open spec fn on_stmts(m: Module, s: Seq<Stmt>, i: nat, env: EnvView) -> Outcome
    decreases s, s.len() - i,
{
    if i >= s.len() {
        Ok(env)
    } else {
        match on_stmt(m, s[i as int], env) {
            Err(e) => Err(e),
            Ok(env2) => on_stmts(m, s, i + 1, env2),
        }
    }
}

/// A block in a scope of its own; its value is that of its tail.
pub open spec fn on_block(m: Module, b: Block, env: EnvView) -> ExprOutcome
    decreases b, 0nat,
{
    match on_stmts(m, b.stmts@, 0, env.push(Map::empty())) {
        Err(e) => Err(e),
        Ok(env2) => match b.tail {
            None => Ok((true, env2.drop_last())),
            Some(t) => left(on_expr(m, *t, env2)),
        },
    }
}

/// One round of a loop: its body, in a scope that holds its variable.
pub open spec fn on_round(m: Module, var: Seq<char>, body: Block, env: EnvView) -> Outcome
    decreases body, 1nat,
{
    match on_block(m, body, bound(env.push(Map::empty()), var, true)) {
        Err(e) => Err(e),
        Ok((c, env2)) => Ok(env2.drop_last()),
    }
}

/// A loop over elements: its body runs any number of times, so a second round
/// has to find what the first found.
pub open spec fn on_loop(m: Module, var: Seq<char>, body: Block, env: EnvView) -> Outcome
    decreases body, 2nat,
{
    match on_round(m, var, body, env) {
        Err(e) => Err(e),
        Ok(env2) => match on_round(m, var, body, env2) {
            Err(e) => Err(e),
            Ok(env3) => Ok(merged(env, env2)),
        },
    }
}

pub open spec fn on_stmt(m: Module, s: Stmt, env: EnvView) -> Outcome
    decreases s, 0nat,
{
    match s {
        Stmt::Let { name, ty, value, span } => match on_expr(m, value, env) {
            Err(e) => Err(e),
            Ok((c, env2)) => Ok(
                bound(
                    env2,
                    name@,
                    match ty {
                        Some(t) => copyable(t),
                        None => c,
                    },
                ),
            ),
        },
        Stmt::Assign { target, value, span } => match on_target(m, target, env) {
            Err(e) => Err(e),
            Ok(env2) => only_env(on_expr(m, value, env2)),
        },
        Stmt::Return { value, span } => match value {
            Some(e) => only_env(on_expr(m, e, env)),
            None => Ok(env),
        },
        Stmt::If(i) => only_env(on_if(m, i, env)),
        Stmt::While { cond, body, span } => match on_expr(m, cond, env) {
            Err(e) => Err(e),
            Ok((c, env2)) => match on_block(m, body, env2) {
                Err(e) => Err(e),
                Ok((c2, env3)) => match on_expr(m, cond, env3) {
                    Err(e) => Err(e),
                    Ok((c3, env4)) => match on_block(m, body, env4) {
                        Err(e) => Err(e),
                        Ok(_) => Ok(merged(env2, env4)),
                    },
                },
            },
        },
        Stmt::For { var, iter, body, span } => match on_expr(m, iter, env) {
            Err(e) => Err(e),
            Ok((c, env2)) => on_loop(m, var@, body, env2),
        },
        Stmt::ForRange { var, start, end, inclusive, body, span } => match on_expr(m, start, env) {
            Err(e) => Err(e),
            Ok((c, env2)) => match on_expr(m, end, env2) {
                Err(e) => Err(e),
                Ok((c2, env3)) => on_loop(m, var@, body, env3),
            },
        },
        Stmt::Break(_) | Stmt::Continue(_) | Stmt::Placeholder(_) => Ok(env),
        Stmt::Expr(e) => only_env(on_expr(m, e, env)),
        Stmt::Parallel { stmts, span } => on_stmts(m, stmts@, 0, env),
        Stmt::ParallelForTo { id_var, source, output, body, span } => match on_expr(m, source, env) {
            Err(e) => Err(e),
            Ok((c, env2)) => match on_target(m, output, env2) {
                Err(e) => Err(e),
                Ok(env3) => on_loop(m, id_var@, body, env3),
            },
        },
        Stmt::Emit { value, span } => only_env(on_expr(m, *value, env)),
        Stmt::Delete { target, span } => only_env(on_expr(m, target, env)),
        Stmt::LetTuple { names, value, span } => match on_expr(m, value, env) {
            Err(e) => Err(e),
            Ok((c, env2)) => Ok(bound_all(env2, names@, names@.len())),
        },
    }
}

/// The key of an indexed assignment target.
pub open spec fn on_target(m: Module, target: Expr, env: EnvView) -> Outcome
    decreases target, 1nat,
{
    match target.kind {
        ExprKind::Index { target: t, key } => only_env(on_expr(m, *key, env)),
        _ => Ok(env),
    }
}

/// A conditional: its branches, each judged from the state after the condition.
pub open spec fn on_if(m: Module, i: IfStmt, env: EnvView) -> ExprOutcome
    decreases i, 0nat,
{
    match on_expr(m, i.cond, env) {
        Err(e) => Err(e),
        Ok((c, before)) => joined(on_block(m, i.then_block, before), on_else(m, i.else_branch, before)),
    }
}

/// The other branch of a conditional.
pub open spec fn on_else(m: Module, e: ElseBranch, env: EnvView) -> ExprOutcome
    decreases e, 0nat,
{
    match e {
        ElseBranch::Absent => Ok((true, env)),
        ElseBranch::Block(b) => on_block(m, b, env),
        ElseBranch::If(i) => on_if(m, *i, env),
    }
}

/// The outcome of evaluating an expression.
pub open spec fn on_expr(m: Module, e: Expr, env: EnvView) -> ExprOutcome
    decreases e, 2 * clause_count(e) + 2,
{
    match e.kind {
        ExprKind::Int(_)
        | ExprKind::UInt(_)
        | ExprKind::Float(_)
        | ExprKind::JsonNull
        | ExprKind::I32(_)
        | ExprKind::U32(_)
        | ExprKind::U64(_)
        | ExprKind::U128(_)
        | ExprKind::Bool(_)
        | ExprKind::Str(_)
        | ExprKind::Prev => Ok((true, env)),
        ExprKind::JsonObject(fs) => as_copy(on_fields(m, fs@, 0, env)),
        ExprKind::JsonArray(es) => as_copy(on_exprs(m, es@, 0, env)),
        ExprKind::Ident(name) => use_name(m, name@, e.span, env),
        ExprKind::Binary { op, lhs, rhs } => match on_expr(m, *lhs, env) {
            Err(x) => Err(x),
            Ok((c, env2)) => as_copy(only_env(on_expr(m, *rhs, env2))),
        },
        ExprKind::Unary { op, operand } => as_copy(only_env(on_expr(m, *operand, env))),
        ExprKind::DynCall { target_ident, method, args, method_is_view, method_is_pure } => as_copy(
            on_exprs(m, args@, 0, env),
        ),
        ExprKind::Call { module, name, args } => match on_exprs(m, args@, 0, env) {
            Err(x) => Err(x),
            Ok(env2) => if module is Some {
                Ok((true, env2))
            } else {
                match result_copy(m, name@) {
                    Some(c) => Ok((c, env2)),
                    None => Err(type_error("unknown function '"@ + name@ + "'"@, e.span)),
                }
            },
        },
        ExprKind::Index { target, key } => match on_expr(m, *key, env) {
            Err(x) => Err(x),
            Ok((c, env2)) => match on_expr(m, *target, env2) {
                Err(x) => Err(x),
                Ok((c2, env3)) => Ok((element_copy(m, *target), env3)),
            },
        },
        ExprKind::Array(es) => as_copy(on_exprs(m, es@, 0, env)),
        ExprKind::StructLit { name, fields } => match on_fields(m, fields@, 0, env) {
            Err(x) => Err(x),
            Ok(env2) => Ok((place(m.caps@, name@) is None, env2)),
        },
        ExprKind::Field { target, name } => as_copy(peek(m, *target, env)),
        ExprKind::Pipe { head, step } => match on_expr(m, *head, env) {
            Err(x) => Err(x),
            Ok((c, env2)) => as_copy(only_env(on_expr(m, *step, env2))),
        },
        ExprKind::ListComp { mapper, clauses } => as_copy(on_comp(m, e, 0, env)),
        ExprKind::SetComp { mapper, clauses } => as_copy(on_comp(m, e, 0, env)),
        ExprKind::DictComp { key, value, clauses } => as_copy(on_comp(m, e, 0, env)),
        ExprKind::SetLit(es) => as_copy(on_exprs(m, es@, 0, env)),
        ExprKind::DictLit(ps) => as_copy(on_pairs(m, ps@, 0, env)),
        ExprKind::TupleLit(es) => as_copy(on_exprs(m, es@, 0, env)),
        ExprKind::TupleIndex { target, index } => as_copy(only_env(on_expr(m, *target, env))),
        ExprKind::EnumCtor { enum_name, variant, args } => as_copy(on_exprs(m, args@, 0, env)),
        ExprKind::Match { scrut, arms } => match on_expr(m, *scrut, env) {
            Err(x) => Err(x),
            Ok((c, env2)) => on_arms(m, arms@, 0, env2),
        },
        ExprKind::Block(b) => on_block(m, b, env),
        ExprKind::If { cond, then_block, else_branch } => match on_expr(m, *cond, env) {
            Err(x) => Err(x),
            Ok((c, env2)) => joined(on_block(m, then_block, env2), on_else(m, else_branch, env2)),
        },
    }
}

/// Whether an element of an indexed value can be copied.
pub open spec fn element_copy(m: Module, target: Expr) -> bool {
    match target.kind {
        ExprKind::Ident(name) => match ambient_type(m, name@) {
            Some(Type::MapOf { key, value }) => copyable(*value),
            _ => true,
        },
        _ => true,
    }
}

/// The scopes, outermost first; each lists its names, later entries hiding
/// earlier ones.
pub type Env = Vec<Vec<(String, Binding)>>;

/// Whether an analysis step gave the outcome that is owed.
pub open spec fn step_ok(want: Outcome, r: Result<(), Error>, before: nat, after: EnvView) -> bool {
    match want {
        Ok(env) => r is Ok && after == env && env.len() == before,
        Err(x) => r matches Err(e) && e@ == x,
    }
}

/// Whether the analysis of an expression gave the outcome that is owed.
pub open spec fn expr_ok(want: ExprOutcome, r: Result<bool, Error>, before: nat, after: EnvView) -> bool {
    match want {
        Ok((c, env)) => r == Ok::<bool, Error>(c) && after == env && env.len() == before,
        Err(x) => r matches Err(e) && e@ == x,
    }
}

fn push_scope(env: &mut Env)
    ensures
        env_view(final(env)@) == env_view(old(env)@).push(Map::empty()),
        final(env)@.len() == old(env)@.len() + 1,
{
    let fresh: Vec<(String, Binding)> = Vec::new();
    env.push(fresh);
    assert(env_view(env@) =~= env_view(old(env)@).push(Map::empty()));
}

fn pop_scope(env: &mut Env)
    requires
        old(env)@.len() > 0,
    ensures
        env_view(final(env)@) == env_view(old(env)@).drop_last(),
        final(env)@.len() == old(env)@.len() - 1,
{
    let _ = env.pop();
    assert(env_view(env@) =~= env_view(old(env)@).drop_last());
}

fn bind(env: &mut Env, name: &String, copy: bool)
    requires
        old(env)@.len() > 0,
    ensures
        env_view(final(env)@) == bound(env_view(old(env)@), name@, copy),
        final(env)@.len() == old(env)@.len(),
{
    let last: usize = env.len() - 1;
    let mut scope = match env.pop() {
        Some(s) => s,
        None => Vec::new(),
    };
    let ghost before = scope@;
    scope.push((name.clone(), Binding { copy, moved_at: None }));
    assert(scope@.drop_last() =~= before);
    env.push(scope);
    assert(env_view(env@) =~= bound(env_view(old(env)@), name@, copy));
}

fn bind_all(env: &mut Env, names: &Vec<String>)
    requires
        old(env)@.len() > 0,
    ensures
        env_view(final(env)@) == bound_all(env_view(old(env)@), names@, names@.len()),
        final(env)@.len() == old(env)@.len(),
{
    let ghost e0 = env_view(env@);
    let ghost n0 = env@.len();
    let mut i: usize = 0;
    while i < names.len()
        invariant
            i <= names@.len(),
            env@.len() == n0,
            n0 > 0,
            env_view(env@) == bound_all(e0, names@, i as nat),
        decreases names@.len() - i,
    {
        bind(env, &names[i], true);
        i = i + 1;
    }
}

fn copy_scope(s: &Vec<(String, Binding)>) -> (r: Vec<(String, Binding)>)
    ensures
        scope_view(r@) == scope_view(s@),
{
    let mut r: Vec<(String, Binding)> = Vec::new();
    let mut i: usize = 0;
    assert(s@.take(0) =~= Seq::empty());
    while i < s.len()
        invariant
            i <= s@.len(),
            scope_view(r@) == scope_view(s@.take(i as int)),
        decreases s@.len() - i,
    {
        let ghost before = r@;
        r.push((s[i].0.clone(), s[i].1));
        assert(r@.drop_last() =~= before);
        assert(s@.take(i as int + 1).drop_last() =~= s@.take(i as int));
        i = i + 1;
    }
    assert(s@.take(i as int) =~= s@);
    r
}

fn copy_env(env: &Env) -> (r: Env)
    ensures
        env_view(r@) == env_view(env@),
        r@.len() == env@.len(),
{
    let mut r: Env = Vec::new();
    let mut i: usize = 0;
    while i < env.len()
        invariant
            i <= env@.len(),
            r@.len() == i,
            forall|j: int| 0 <= j < i ==> scope_view(#[trigger] r@[j]@) == scope_view(env@[j]@),
        decreases env@.len() - i,
    {
        r.push(copy_scope(&env[i]));
        i = i + 1;
    }
    assert(env_view(r@) =~= env_view(env@));
    r
}

fn merge_scope(a: &Vec<(String, Binding)>, b: &Vec<(String, Binding)>) -> (r: Vec<(String, Binding)>)
    ensures
        scope_view(r@) == merged_scope(scope_view(a@), scope_view(b@)),
{
    let mut r: Vec<(String, Binding)> = Vec::new();
    let mut i: usize = 0;
    assert(a@.take(0) =~= Seq::empty());
    assert(scope_view(r@) =~= merged_scope(scope_view(a@.take(0)), scope_view(b@)));
    while i < a.len()
        invariant
            i <= a@.len(),
            scope_view(r@) == merged_scope(scope_view(a@.take(i as int)), scope_view(b@)),
        decreases a@.len() - i,
    {
        let va = a[i].1;
        let moved_at: Option<Span> = match va.moved_at {
            Some(s) => Some(s),
            None => match find_last(b, a[i].0.as_str()) {
                Some(k) => b[k].1.moved_at,
                None => None,
            },
        };
        let ghost before = r@;
        r.push((a[i].0.clone(), Binding { copy: va.copy, moved_at }));
        proof {
            lemma_scope_lookup(b@, a@[i as int].0@);
            assert(r@.drop_last() =~= before);
            assert(a@.take(i as int + 1).drop_last() =~= a@.take(i as int));
            assert(scope_view(r@) =~= merged_scope(scope_view(a@.take(i as int + 1)), scope_view(b@)));
        }
        i = i + 1;
    }
    assert(a@.take(i as int) =~= a@);
    r
}

fn merge(a: &Env, b: &Env) -> (r: Env)
    ensures
        env_view(r@) == merged(env_view(a@), env_view(b@)),
{
    let mut r: Env = Vec::new();
    let mut i: usize = 0;
    while i < a.len() && i < b.len()
        invariant
            i <= a@.len(),
            i <= b@.len(),
            r@.len() == i,
            forall|j: int|
                0 <= j < i ==> scope_view(#[trigger] r@[j]@) == merged_scope(
                    scope_view(a@[j]@),
                    scope_view(b@[j]@),
                ),
        decreases a@.len() - i,
    {
        r.push(merge_scope(&a[i], &b[i]));
        i = i + 1;
    }
    assert(env_view(r@) =~= merged(env_view(a@), env_view(b@)));
    r
}

/// Whether two environments list the same; if so they are equal.
fn same_env(a: &Env, b: &Env) -> (r: bool)
    ensures
        r ==> env_view(a@) == env_view(b@),
{
    if a.len() != b.len() {
        return false;
    }
    let mut i: usize = 0;
    while i < a.len()
        invariant
            i <= a@.len() == b@.len(),
            forall|j: int| 0 <= j < i ==> scope_view(#[trigger] a@[j]@) == scope_view(b@[j]@),
        decreases a@.len() - i,
    {
        if !same_scope(&a[i], &b[i]) {
            return false;
        }
        i = i + 1;
    }
    assert(env_view(a@) =~= env_view(b@));
    true
}

fn same_scope(a: &Vec<(String, Binding)>, b: &Vec<(String, Binding)>) -> (r: bool)
    ensures
        r ==> scope_view(a@) == scope_view(b@),
{
    if a.len() != b.len() {
        return false;
    }
    let mut i: usize = 0;
    assert(a@.take(0) =~= b@.take(0));
    while i < a.len()
        invariant
            i <= a@.len() == b@.len(),
            scope_view(a@.take(i as int)) == scope_view(b@.take(i as int)),
        decreases a@.len() - i,
    {
        if !same(a[i].0.as_str(), b[i].0.as_str()) || a[i].1 != b[i].1 {
            return false;
        }
        assert(a@.take(i as int + 1).drop_last() =~= a@.take(i as int));
        assert(b@.take(i as int + 1).drop_last() =~= b@.take(i as int));
        i = i + 1;
    }
    assert(a@.take(i as int) =~= a@);
    assert(b@.take(i as int) =~= b@);
    true
}

fn find_innermost(env: &Env, name: &str) -> (r: Option<(usize, usize)>)
    ensures
        match r {
            Some((i, k)) => innermost(env_view(env@), name@) == Some(i as int) && i < env@.len() && k
                < env@[i as int]@.len() && place(env@[i as int]@, name@) == Some(k as int),
            None => innermost(env_view(env@), name@) is None,
        },
{
    let mut i: usize = env.len();
    let ghost all = env_view(env@);
    assert(all.take(i as int) =~= all);
    while i > 0
        invariant
            i <= env@.len(),
            all == env_view(env@),
            innermost(all, name@) == innermost(all.take(i as int), name@),
        decreases i,
    {
        i = i - 1;
        assert(all.take(i as int + 1).drop_last() =~= all.take(i as int));
        proof {
            lemma_scope_lookup(env@[i as int]@, name@);
        }
        match find_last(&env[i], name) {
            Some(k) => return Some((i, k)),
            None => {},
        }
    }
    None
}

fn mark_moved(env: &mut Env, i: usize, k: usize, span: Span, name: &String)
    requires
        i < old(env)@.len(),
        k < old(env)@[i as int]@.len(),
        place(old(env)@[i as int]@, name@) == Some(k as int),
    ensures
        env_view(final(env)@) == env_view(old(env)@).update(
            i as int,
            env_view(old(env)@)[i as int].insert(
                name@,
                Binding { copy: false, moved_at: Some(span) },
            ),
        ),
        final(env)@.len() == old(env)@.len(),
{
    let mut scope: Vec<(String, Binding)> = Vec::new();
    let ghost s0 = env@[i as int]@;
    std::mem::swap(&mut scope, &mut env[i]);
    assert(scope@ == s0);
    let entry = (name.clone(), Binding { copy: false, moved_at: Some(span) });
    proof {
        lemma_scope_update(s0, name@, entry);
    }
    scope.set(k, entry);
    env.set(i, scope);
    assert(env_view(env@) =~= env_view(old(env)@).update(
        i as int,
        env_view(old(env)@)[i as int].insert(name@, Binding { copy: false, moved_at: Some(span) }),
    ));
}


fn ambient_copy(m: &Module, name: &str) -> (r: Option<bool>)
    ensures
        match ambient_type(*m, name@) {
            Some(t) => r == Some(copyable(t)),
            None => r is None,
        },
{
    match find_last(&m.consts, name) {
        Some(k) => Some(m.consts[k].ty.is_copy()),
        None => match find_last(&m.states, name) {
            Some(k) => Some(m.states[k].ty.is_copy()),
            None => None,
        },
    }
}

fn call_copy(m: &Module, name: &str) -> (r: Option<bool>)
    ensures
        r == result_copy(*m, name@),
{
    match find_last(&m.functions, name) {
        Some(k) => Some(m.functions[k].return_type.is_copy()),
        None => match find_last(&m.imports, name) {
            Some(k) => Some(m.imports[k].return_type.is_copy()),
            None => if is_builtin(name) {
                Some(!same(name, "resource"))
            } else {
                None
            },
        },
    }
}

fn map_value_copy(t: &Type) -> (r: bool)
    ensures
        r == match *t {
            Type::MapOf { key, value } => copyable(*value),
            _ => true,
        },
{
    match t {
        Type::MapOf { key: _, value } => value.is_copy(),
        _ => true,
    }
}

fn indexed_copy(m: &Module, target: &Expr) -> (r: bool)
    ensures
        r == element_copy(*m, *target),
{
    match &target.kind {
        ExprKind::Ident(name) => match find_last(&m.consts, name.as_str()) {
            Some(k) => map_value_copy(&m.consts[k].ty),
            None => match find_last(&m.states, name.as_str()) {
                Some(k) => map_value_copy(&m.states[k].ty),
                None => true,
            },
        },
        _ => true,
    }
}

fn check_name(m: &Module, name: &String, span: Span, env: &mut Env) -> (r: Result<bool, Error>)
    ensures
        expr_ok(
            use_name(*m, name@, span, env_view(old(env)@)),
            r,
            old(env)@.len(),
            env_view(final(env)@),
        ),
{
    match find_innermost(env, name.as_str()) {
        Some((i, k)) => {
            proof {
                lemma_scope_lookup(env@[i as int]@, name@);
            }
            let b = env[i][k].1;
            match b.moved_at {
                Some(prev) => Err(moved_error(name.as_str(), prev, span)),
                None => {
                    if !b.copy {
                        mark_moved(env, i, k, span, name);
                    }
                    Ok(b.copy)
                },
            }
        },
        None => match ambient_copy(m, name.as_str()) {
            Some(c) => Ok(c),
            None => Err(
                Error::new(
                    ErrorKind::Type,
                    concat3("undefined variable '", name.as_str(), "'"),
                    span,
                ),
            ),
        },
    }
}

fn field_peek(m: &Module, e: &Expr, env: &mut Env) -> (r: Result<(), Error>)
    requires
        old(env)@.len() > 0,
    ensures
        step_ok(peek(*m, *e, env_view(old(env)@)), r, old(env)@.len(), env_view(final(env)@)),
    decreases e, 2 * clause_count(*e) + 3,
{
    match &e.kind {
        ExprKind::Ident(name) => match find_innermost(env, name.as_str()) {
            Some((i, k)) => {
                proof {
                    lemma_scope_lookup(env@[i as int]@, name@);
                }
                match env[i][k].1.moved_at {
                    Some(prev) => Err(moved_error(name.as_str(), prev, e.span)),
                    None => Ok(()),
                }
            },
            None => Ok(()),
        },
        ExprKind::Field { target, name: _ } => field_peek(m, target, env),
        _ => match check_expr(m, e, env) {
            Ok(_) => Ok(()),
            Err(x) => Err(x),
        },
    }
}

#[verifier::loop_isolation(false)]
fn check_exprs(m: &Module, v: &Vec<Expr>, env: &mut Env) -> (r: Result<(), Error>)
    requires
        old(env)@.len() > 0,
    ensures
        step_ok(on_exprs(*m, v@, 0, env_view(old(env)@)), r, old(env)@.len(), env_view(final(env)@)),
    decreases v, 0nat,
{
    let ghost e0 = env_view(env@);
    let ghost n0 = env@.len();
    let mut i: usize = 0;
    while i < v.len()
        invariant
            i <= v@.len(),
            env@.len() == n0,
            on_exprs(*m, v@, 0, e0) == on_exprs(*m, v@, i as nat, env_view(env@)),
        decreases v@.len() - i,
    {
        match check_expr(m, &v[i], env) {
            Ok(_) => {},
            Err(x) => return Err(x),
        }
        i = i + 1;
    }
    Ok(())
}

#[verifier::loop_isolation(false)]
fn check_fields(m: &Module, v: &Vec<(String, Expr)>, env: &mut Env) -> (r: Result<(), Error>)
    requires
        old(env)@.len() > 0,
    ensures
        step_ok(on_fields(*m, v@, 0, env_view(old(env)@)), r, old(env)@.len(), env_view(final(env)@)),
    decreases v, 0nat,
{
    let ghost e0 = env_view(env@);
    let ghost n0 = env@.len();
    let mut i: usize = 0;
    while i < v.len()
        invariant
            i <= v@.len(),
            env@.len() == n0,
            on_fields(*m, v@, 0, e0) == on_fields(*m, v@, i as nat, env_view(env@)),
        decreases v@.len() - i,
    {
        match check_expr(m, &v[i].1, env) {
            Ok(_) => {},
            Err(x) => return Err(x),
        }
        i = i + 1;
    }
    Ok(())
}

#[verifier::loop_isolation(false)]
fn check_pairs(m: &Module, v: &Vec<(Expr, Expr)>, env: &mut Env) -> (r: Result<(), Error>)
    requires
        old(env)@.len() > 0,
    ensures
        step_ok(on_pairs(*m, v@, 0, env_view(old(env)@)), r, old(env)@.len(), env_view(final(env)@)),
    decreases v, 0nat,
{
    let ghost e0 = env_view(env@);
    let ghost n0 = env@.len();
    let mut i: usize = 0;
    while i < v.len()
        invariant
            i <= v@.len(),
            env@.len() == n0,
            on_pairs(*m, v@, 0, e0) == on_pairs(*m, v@, i as nat, env_view(env@)),
        decreases v@.len() - i,
    {
        match check_expr(m, &v[i].0, env) {
            Ok(_) => {},
            Err(x) => return Err(x),
        }
        match check_expr(m, &v[i].1, env) {
            Ok(_) => {},
            Err(x) => return Err(x),
        }
        i = i + 1;
    }
    Ok(())
}

#[verifier::loop_isolation(false)]
fn check_stmts(m: &Module, v: &Vec<Stmt>, env: &mut Env) -> (r: Result<(), Error>)
    requires
        old(env)@.len() > 0,
    ensures
        step_ok(on_stmts(*m, v@, 0, env_view(old(env)@)), r, old(env)@.len(), env_view(final(env)@)),
    decreases v, 0nat,
{
    let ghost e0 = env_view(env@);
    let ghost n0 = env@.len();
    let mut i: usize = 0;
    while i < v.len()
        invariant
            i <= v@.len(),
            env@.len() == n0,
            on_stmts(*m, v@, 0, e0) == on_stmts(*m, v@, i as nat, env_view(env@)),
        decreases v@.len() - i,
    {
        match check_stmt(m, &v[i], env) {
            Ok(_) => {},
            Err(x) => return Err(x),
        }
        i = i + 1;
    }
    Ok(())
}

/// Analyses the arms of a match from the `i`-th on, each from the same state.
fn check_arms(m: &Module, v: &Vec<MatchArm>, i: usize, env: &mut Env) -> (r: Result<bool, Error>)
    requires
        old(env)@.len() > 0,
        i <= v@.len(),
    ensures
        expr_ok(on_arms(*m, v@, i as nat, env_view(old(env)@)), r, old(env)@.len(), env_view(final(env)@)),
    decreases v, v@.len() - i,
{
    if i >= v.len() {
        return Ok(true);
    }
    let mut other = copy_env(env);
    let arm = &v[i];
    push_scope(env);
    match &arm.pattern {
        MatchPattern::Wildcard => {},
        MatchPattern::EnumVariant { enum_name: _, variant: _, bindings } => bind_all(env, bindings),
    }
    let c = match check_expr(m, &arm.body, env) {
        Ok(c) => c,
        Err(x) => return Err(x),
    };
    pop_scope(env);
    let c2 = match check_arms(m, v, i + 1, &mut other) {
        Ok(c) => c,
        Err(x) => return Err(x),
    };
    *env = merge(env, &other);
    Ok(c && c2)
}

/// Analyses what a comprehension computes for each element.
fn check_leaf(m: &Module, e: &Expr, env: &mut Env) -> (r: Result<(), Error>)
    requires
        old(env)@.len() > 0,
    ensures
        step_ok(on_leaf(*m, *e, env_view(old(env)@)), r, old(env)@.len(), env_view(final(env)@)),
    decreases e, 0nat,
{
    match &e.kind {
        ExprKind::ListComp { mapper, clauses: _ } => match check_expr(m, mapper, env) {
            Ok(_) => Ok(()),
            Err(x) => Err(x),
        },
        ExprKind::SetComp { mapper, clauses: _ } => match check_expr(m, mapper, env) {
            Ok(_) => Ok(()),
            Err(x) => Err(x),
        },
        ExprKind::DictComp { key, value, clauses: _ } => {
            match check_expr(m, key, env) {
                Ok(_) => {},
                Err(x) => return Err(x),
            }
            match check_expr(m, value, env) {
                Ok(_) => Ok(()),
                Err(x) => Err(x),
            }
        },
        _ => Ok(()),
    }
}

/// Analyses one round of a loop of a comprehension.
fn check_comp_round(m: &Module, e: &Expr, clauses: &Vec<CompClause>, i: usize, var: &String, env: &mut Env) -> (r:
    Result<(), Error>)
    requires
        old(env)@.len() > 0,
        clauses@ == clauses_of(*e),
        i <= clauses@.len(),
    ensures
        step_ok(
            on_comp_round(*m, *e, i as nat, var@, env_view(old(env)@)),
            r,
            old(env)@.len(),
            env_view(final(env)@),
        ),
    decreases e, 2 * (clause_count(*e) - i) + 2,
{
    push_scope(env);
    bind(env, var, true);
    match check_comp(m, e, clauses, i, env) {
        Ok(_) => {},
        Err(x) => return Err(x),
    }
    pop_scope(env);
    Ok(())
}

/// Analyses a comprehension from its `i`-th clause on.
fn check_comp(m: &Module, e: &Expr, clauses: &Vec<CompClause>, i: usize, env: &mut Env) -> (r: Result<(), Error>)
    requires
        old(env)@.len() > 0,
        clauses@ == clauses_of(*e),
        i <= clauses@.len(),
    ensures
        step_ok(on_comp(*m, *e, i as nat, env_view(old(env)@)), r, old(env)@.len(), env_view(final(env)@)),
    decreases e, 2 * (clause_count(*e) - i) + 1,
{
    if i >= clauses.len() {
        return check_leaf(m, e, env);
    }
    match &clauses[i] {
        CompClause::For { var, iter } => {
            match check_expr(m, iter, env) {
                Ok(_) => {},
                Err(x) => return Err(x),
            }
            let before = copy_env(env);
            match check_comp_round(m, e, clauses, i + 1, var, env) {
                Ok(_) => {},
                Err(x) => return Err(x),
            }
            if !same_env(&before, env) {
                let mut again = copy_env(env);
                match check_comp_round(m, e, clauses, i + 1, var, &mut again) {
                    Ok(_) => {},
                    Err(x) => return Err(x),
                }
            }
            *env = merge(&before, env);
            Ok(())
        },
        CompClause::If(cond) => {
            match check_expr(m, cond, env) {
                Ok(_) => {},
                Err(x) => return Err(x),
            }
            let before = copy_env(env);
            match check_comp(m, e, clauses, i + 1, env) {
                Ok(_) => {},
                Err(x) => return Err(x),
            }
            *env = merge(&before, env);
            Ok(())
        },
    }
}

fn check_block(m: &Module, b: &Block, env: &mut Env) -> (r: Result<bool, Error>)
    requires
        old(env)@.len() > 0,
    ensures
        expr_ok(on_block(*m, *b, env_view(old(env)@)), r, old(env)@.len(), env_view(final(env)@)),
    decreases b, 0nat,
{
    push_scope(env);
    match check_stmts(m, &b.stmts, env) {
        Ok(_) => {},
        Err(x) => return Err(x),
    }
    let c = match &b.tail {
        Some(t) => match check_expr(m, t, env) {
            Ok(c) => c,
            Err(x) => return Err(x),
        },
        None => true,
    };
    pop_scope(env);
    Ok(c)
}

/// Analyses one round of a loop.
fn check_round(m: &Module, var: &String, body: &Block, env: &mut Env) -> (r: Result<(), Error>)
    requires
        old(env)@.len() > 0,
    ensures
        step_ok(on_round(*m, var@, *body, env_view(old(env)@)), r, old(env)@.len(), env_view(final(env)@)),
    decreases body, 1nat,
{
    push_scope(env);
    bind(env, var, true);
    match check_block(m, body, env) {
        Ok(_) => {},
        Err(x) => return Err(x),
    }
    pop_scope(env);
    Ok(())
}

fn check_loop(m: &Module, var: &String, body: &Block, env: &mut Env) -> (r: Result<(), Error>)
    requires
        old(env)@.len() > 0,
    ensures
        step_ok(on_loop(*m, var@, *body, env_view(old(env)@)), r, old(env)@.len(), env_view(final(env)@)),
    decreases body, 2nat,
{
    let before = copy_env(env);
    match check_round(m, var, body, env) {
        Ok(_) => {},
        Err(x) => return Err(x),
    }
    if !same_env(&before, env) {
        let mut again = copy_env(env);
        match check_round(m, var, body, &mut again) {
            Ok(_) => {},
            Err(x) => return Err(x),
        }
    }
    *env = merge(&before, env);
    Ok(())
}

/// Analyses an expression for what it moves.
fn check_moves(m: &Module, e: &Expr, env: &mut Env) -> (r: Result<(), Error>)
    requires
        old(env)@.len() > 0,
    ensures
        step_ok(only_env(on_expr(*m, *e, env_view(old(env)@))), r, old(env)@.len(), env_view(final(env)@)),
    decreases e, 2 * clause_count(*e) + 3,
{
    match check_expr(m, e, env) {
        Ok(_) => Ok(()),
        Err(x) => Err(x),
    }
}

fn check_target(m: &Module, target: &Expr, env: &mut Env) -> (r: Result<(), Error>)
    requires
        old(env)@.len() > 0,
    ensures
        step_ok(on_target(*m, *target, env_view(old(env)@)), r, old(env)@.len(), env_view(final(env)@)),
    decreases target, 1nat,
{
    match &target.kind {
        ExprKind::Index { target: _, key } => check_moves(m, key, env),
        _ => Ok(()),
    }
}

#[verifier::rlimit(60)]
fn check_stmt(m: &Module, s: &Stmt, env: &mut Env) -> (r: Result<(), Error>)
    requires
        old(env)@.len() > 0,
    ensures
        step_ok(on_stmt(*m, *s, env_view(old(env)@)), r, old(env)@.len(), env_view(final(env)@)),
    decreases s, 0nat,
{
    match s {
        Stmt::Let { name, ty, value, span: _ } => {
            let c = match check_expr(m, value, env) {
                Ok(c) => c,
                Err(x) => return Err(x),
            };
            let copy = match ty {
                Some(t) => t.is_copy(),
                None => c,
            };
            bind(env, name, copy);
            Ok(())
        },
        Stmt::Assign { target, value, span: _ } => {
            match check_target(m, target, env) {
                Ok(_) => {},
                Err(x) => return Err(x),
            }
            match check_expr(m, value, env) {
                Ok(_) => Ok(()),
                Err(x) => Err(x),
            }
        },
        Stmt::Return { value, span: _ } => match value {
            Some(e) => match check_expr(m, e, env) {
                Ok(_) => Ok(()),
                Err(x) => Err(x),
            },
            None => Ok(()),
        },
        Stmt::If(i) => match check_if(m, i, env) {
            Ok(_) => Ok(()),
            Err(x) => Err(x),
        },
        Stmt::While { cond, body, span: _ } => {
            match check_expr(m, cond, env) {
                Ok(_) => {},
                Err(x) => return Err(x),
            }
            let before = copy_env(env);
            match check_block(m, body, env) {
                Ok(_) => {},
                Err(x) => return Err(x),
            }
            match check_expr(m, cond, env) {
                Ok(_) => {},
                Err(x) => return Err(x),
            }
            if !same_env(&before, env) {
                let mut again = copy_env(env);
                match check_block(m, body, &mut again) {
                    Ok(_) => {},
                    Err(x) => return Err(x),
                }
            }
            *env = merge(&before, env);
            Ok(())
        },
        Stmt::For { var, iter, body, span: _ } => {
            match check_expr(m, iter, env) {
                Ok(_) => {},
                Err(x) => return Err(x),
            }
            check_loop(m, var, body, env)
        },
        Stmt::ForRange { var, start, end, inclusive: _, body, span: _ } => {
            match check_expr(m, start, env) {
                Ok(_) => {},
                Err(x) => return Err(x),
            }
            match check_expr(m, end, env) {
                Ok(_) => {},
                Err(x) => return Err(x),
            }
            check_loop(m, var, body, env)
        },
        Stmt::Break(_) | Stmt::Continue(_) | Stmt::Placeholder(_) => Ok(()),
        Stmt::Expr(e) => match check_expr(m, e, env) {
            Ok(_) => Ok(()),
            Err(x) => Err(x),
        },
        Stmt::Parallel { stmts, span: _ } => check_stmts(m, stmts, env),
        Stmt::ParallelForTo { id_var, source, output, body, span: _ } => {
            match check_expr(m, source, env) {
                Ok(_) => {},
                Err(x) => return Err(x),
            }
            match check_target(m, output, env) {
                Ok(_) => {},
                Err(x) => return Err(x),
            }
            check_loop(m, id_var, body, env)
        },
        Stmt::Emit { value, span: _ } => match check_expr(m, value, env) {
            Ok(_) => Ok(()),
            Err(x) => Err(x),
        },
        Stmt::Delete { target, span: _ } => match check_expr(m, target, env) {
            Ok(_) => Ok(()),
            Err(x) => Err(x),
        },
        Stmt::LetTuple { names, value, span: _ } => {
            match check_expr(m, value, env) {
                Ok(_) => {},
                Err(x) => return Err(x),
            }
            bind_all(env, names);
            Ok(())
        },
    }
}

fn check_if(m: &Module, i: &IfStmt, env: &mut Env) -> (r: Result<bool, Error>)
    requires
        old(env)@.len() > 0,
    ensures
        expr_ok(on_if(*m, *i, env_view(old(env)@)), r, old(env)@.len(), env_view(final(env)@)),
    decreases i, 0nat,
{
    match check_expr(m, &i.cond, env) {
        Ok(_) => {},
        Err(x) => return Err(x),
    }
    let mut other = copy_env(env);
    let c = match check_block(m, &i.then_block, env) {
        Ok(c) => c,
        Err(x) => return Err(x),
    };
    let c2 = match check_else(m, &i.else_branch, &mut other) {
        Ok(c) => c,
        Err(x) => return Err(x),
    };
    *env = merge(env, &other);
    Ok(c && c2)
}

fn check_else(m: &Module, e: &ElseBranch, env: &mut Env) -> (r: Result<bool, Error>)
    requires
        old(env)@.len() > 0,
    ensures
        expr_ok(on_else(*m, *e, env_view(old(env)@)), r, old(env)@.len(), env_view(final(env)@)),
    decreases e, 0nat,
{
    match e {
        ElseBranch::Absent => Ok(true),
        ElseBranch::Block(b) => check_block(m, b, env),
        ElseBranch::If(i) => check_if(m, i, env),
    }
}

fn copy_value(r: Result<(), Error>) -> (v: Result<bool, Error>)
    ensures
        match r {
            Ok(_) => v == Ok::<bool, Error>(true),
            Err(e) => v == Err::<bool, Error>(e),
        },
{
    match r {
        Ok(_) => Ok(true),
        Err(x) => Err(x),
    }
}

/// Analyses an expression: whether its value can be copied, and what it moves.
#[verifier::rlimit(60)]
fn check_expr(m: &Module, e: &Expr, env: &mut Env) -> (r: Result<bool, Error>)
    requires
        old(env)@.len() > 0,
    ensures
        expr_ok(on_expr(*m, *e, env_view(old(env)@)), r, old(env)@.len(), env_view(final(env)@)),
    decreases e, 2 * clause_count(*e) + 2,
{
    match &e.kind {
        ExprKind::Int(_)
        | ExprKind::UInt(_)
        | ExprKind::Float(_)
        | ExprKind::JsonNull
        | ExprKind::I32(_)
        | ExprKind::U32(_)
        | ExprKind::U64(_)
        | ExprKind::U128(_)
        | ExprKind::Bool(_)
        | ExprKind::Str(_)
        | ExprKind::Prev => Ok(true),
        ExprKind::JsonObject(fs) => copy_value(check_fields(m, fs, env)),
        ExprKind::JsonArray(es) => copy_value(check_exprs(m, es, env)),
        ExprKind::Ident(name) => check_name(m, name, e.span, env),
        ExprKind::Binary { op: _, lhs, rhs } => {
            match check_expr(m, lhs, env) {
                Ok(_) => {},
                Err(x) => return Err(x),
            }
            match check_expr(m, rhs, env) {
                Ok(_) => Ok(true),
                Err(x) => Err(x),
            }
        },
        ExprKind::Unary { op: _, operand } => match check_expr(m, operand, env) {
            Ok(_) => Ok(true),
            Err(x) => Err(x),
        },
        ExprKind::DynCall { target_ident: _, method: _, args, method_is_view: _, method_is_pure: _ } =>
            copy_value(check_exprs(m, args, env)),
        ExprKind::Call { module, name, args } => {
            match check_exprs(m, args, env) {
                Ok(_) => {},
                Err(x) => return Err(x),
            }
            if module.is_some() {
                return Ok(true);
            }
            match call_copy(m, name.as_str()) {
                Some(c) => Ok(c),
                None => Err(
                    Error::new(
                        ErrorKind::Type,
                        concat3("unknown function '", name.as_str(), "'"),
                        e.span,
                    ),
                ),
            }
        },
        ExprKind::Index { target, key } => {
            match check_expr(m, key, env) {
                Ok(_) => {},
                Err(x) => return Err(x),
            }
            match check_expr(m, target, env) {
                Ok(_) => Ok(indexed_copy(m, target)),
                Err(x) => Err(x),
            }
        },
        ExprKind::Array(es) => copy_value(check_exprs(m, es, env)),
        ExprKind::StructLit { name, fields } => match check_fields(m, fields, env) {
            Ok(_) => Ok(find_last(&m.caps, name.as_str()).is_none()),
            Err(x) => Err(x),
        },
        ExprKind::Field { target, name: _ } => copy_value(field_peek(m, target, env)),
        ExprKind::Pipe { head, step } => {
            match check_expr(m, head, env) {
                Ok(_) => {},
                Err(x) => return Err(x),
            }
            match check_expr(m, step, env) {
                Ok(_) => Ok(true),
                Err(x) => Err(x),
            }
        },
        ExprKind::ListComp { mapper: _, clauses } => copy_value(check_comp(m, e, clauses, 0, env)),
        ExprKind::SetComp { mapper: _, clauses } => copy_value(check_comp(m, e, clauses, 0, env)),
        ExprKind::DictComp { key: _, value: _, clauses } => copy_value(check_comp(m, e, clauses, 0, env)),
        ExprKind::SetLit(es) => copy_value(check_exprs(m, es, env)),
        ExprKind::DictLit(ps) => copy_value(check_pairs(m, ps, env)),
        ExprKind::TupleLit(es) => copy_value(check_exprs(m, es, env)),
        ExprKind::TupleIndex { target, index: _ } => match check_expr(m, target, env) {
            Ok(_) => Ok(true),
            Err(x) => Err(x),
        },
        ExprKind::EnumCtor { enum_name: _, variant: _, args } => copy_value(check_exprs(m, args, env)),
        ExprKind::Match { scrut, arms } => {
            match check_expr(m, scrut, env) {
                Ok(_) => {},
                Err(x) => return Err(x),
            }
            check_arms(m, arms, 0, env)
        },
        ExprKind::Block(b) => check_block(m, b, env),
        ExprKind::If { cond, then_block, else_branch } => {
            match check_expr(m, cond, env) {
                Ok(_) => {},
                Err(x) => return Err(x),
            }
            let mut other = copy_env(env);
            let c = match check_block(m, then_block, env) {
                Ok(c) => c,
                Err(x) => return Err(x),
            };
            let c2 = match check_else(m, else_branch, &mut other) {
                Ok(c) => c,
                Err(x) => return Err(x),
            };
            *env = merge(env, &other);
            Ok(c && c2)
        },
    }
}

/// The environment at the start of a function: its parameters.
pub open spec fn start_env(f: FnDef, n: nat) -> EnvView
    decreases n,
    when n <= f.params@.len()
{
    if n == 0 {
        seq![Map::empty()]
    } else {
        bound(start_env(f, (n - 1) as nat), f.params@[n - 1].name@, copyable(f.params@[n - 1].ty))
    }
}

/// What the analysis says of a function: nothing, or the first misuse.
pub open spec fn fn_misuse(m: Module, f: FnDef) -> Option<ErrorView> {
    match on_block(m, f.body, start_env(f, f.params@.len())) {
        Ok(_) => None,
        Err(e) => Some(e),
    }
}

fn check_fn(m: &Module, f: &FnDef) -> (r: Result<(), Error>)
    ensures
        match fn_misuse(*m, *f) {
            None => r is Ok,
            Some(x) => r matches Err(e) && e@ == x,
        },
{
    let mut env: Env = Vec::new();
    push_scope(&mut env);
    let mut i: usize = 0;
    assert(env_view(env@) =~= seq![Map::empty()]);
    while i < f.params.len()
        invariant
            i <= f.params@.len(),
            env@.len() == 1,
            env_view(env@) == start_env(*f, i as nat),
        decreases f.params@.len() - i,
    {
        bind(&mut env, &f.params[i].name, f.params[i].ty.is_copy());
        i = i + 1;
    }
    match check_block(m, &f.body, &mut env) {
        Ok(_) => Ok(()),
        Err(x) => Err(x),
    }
}

/// Checks every function of a module: the first misuse, in the order of the
/// functions, is reported.
pub fn check(module: &Module) -> (r: Result<(), Error>)
    ensures
        match r {
            Ok(_) => forall|k: int|
                0 <= k < module.functions@.len() ==> fn_misuse(
                    *module,
                    #[trigger] module.functions@[k],
                ) is None,
            Err(e) => exists|k: int|
                0 <= k < module.functions@.len() && fn_misuse(*module, #[trigger] module.functions@[k])
                    == Some(e@) && forall|j: int|
                    0 <= j < k ==> fn_misuse(*module, #[trigger] module.functions@[j]) is None,
        },
{
    let mut i: usize = 0;
    while i < module.functions.len()
        invariant
            i <= module.functions@.len(),
            forall|j: int|
                0 <= j < i ==> fn_misuse(*module, #[trigger] module.functions@[j]) is None,
        decreases module.functions@.len() - i,
    {
        match check_fn(module, &module.functions[i]) {
            Ok(_) => {},
            Err(x) => {
                assert(fn_misuse(*module, module.functions@[i as int]) == Some(x@));
                return Err(x);
            },
        }
        i = i + 1;
    }
    Ok(())
}

/// A name that cannot be copied can be used once: a second use right after the
/// first is reported with the place of the first.
pub proof fn second_use_is_reported(m: Module, name: Seq<char>, first: Span, second: Span, env: EnvView)
    requires
        innermost(env, name) matches Some(i) && !env[i][name].copy && env[i][name].moved_at is None,
    ensures
        match use_name(m, name, first, env) {
            Ok((c, after)) => !c && use_name(m, name, second, after) == Err::<(bool, EnvView), ErrorView>(
                type_error(moved_message(name, first), second),
            ),
            Err(_) => false,
        },
{
    let i = innermost(env, name)->0;
    lemma_innermost_range(env, name);
    let after = env.update(i, env[i].insert(name, Binding { copy: false, moved_at: Some(first) }));
    lemma_innermost_same(env, after, name);
}

/// Using a copyable name changes nothing.
pub proof fn copyable_use_is_free(m: Module, name: Seq<char>, span: Span, env: EnvView)
    requires
        innermost(env, name) matches Some(i) && env[i][name].copy && env[i][name].moved_at is None,
    ensures
        use_name(m, name, span, env) == Ok::<(bool, EnvView), ErrorView>((true, env)),
{
}

pub(crate) proof fn lemma_innermost_range(env: EnvView, name: Seq<char>)
    ensures
        innermost(env, name) matches Some(i) ==> 0 <= i < env.len() && env[i].dom().contains(name),
    decreases env.len(),
{
    if env.len() > 0 {
        lemma_innermost_range(env.drop_last(), name);
    }
}

pub(crate) proof fn lemma_innermost_same(a: EnvView, b: EnvView, name: Seq<char>)
    requires
        a.len() == b.len(),
        forall|i: int| 0 <= i < a.len() ==> (#[trigger] a[i]).dom().contains(name) == b[i].dom().contains(name),
    ensures
        innermost(a, name) == innermost(b, name),
    decreases a.len(),
{
    if a.len() > 0 {
        assert forall|i: int| 0 <= i < a.len() - 1 implies (#[trigger] a.drop_last()[i]).dom().contains(name)
            == b.drop_last()[i].dom().contains(name) by {
            assert(a[i].dom().contains(name) == b[i].dom().contains(name));
        }
        assert(a[a.len() - 1].dom().contains(name) == b[a.len() - 1].dom().contains(name));
        lemma_innermost_same(a.drop_last(), b.drop_last(), name);
    }
}

} // verus!
