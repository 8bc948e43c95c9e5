//! Copies of types and syntax trees. A copy may have expressions put in place of
//! names, and statements in place of `_;`.

use vstd::prelude::*;
use crate::ast::{
    Block, CompClause, ElseBranch, Expr, ExprKind, IfStmt, InterfaceMethodSig, MatchArm,
    MatchPattern, Param, Stmt, Type, group_of, type_view, type_views,
};
use crate::tables::{find_last, place};

verus! {

/// What stands in place of names: the parameters and, in their order, the
/// expressions given for them. A later parameter hides an earlier one of its
/// name.
pub struct Subst {
    pub params: Seq<Param>,
    pub args: Seq<Expr>,
    /// The statements that stand in place of every `_;`, where it is filled.
    pub fill: Option<Seq<Stmt>>,
}

/// The substitution that leaves every name and every `_;` alone.
pub open spec fn no_subst() -> Subst {
    Subst { params: Seq::empty(), args: Seq::empty(), fill: None }
}

/// How much a substitution puts in place: nothing only if it leaves all alone.
pub open spec fn rank(sub: Subst) -> nat {
    sub.params.len() + if sub.fill is Some {
        1nat
    } else {
        0nat
    }
}

pub open spec fn same_opt_text(a: Option<String>, b: Option<String>) -> bool {
    match (a, b) {
        (Some(x), Some(y)) => x@ == y@,
        (None, None) => true,
        _ => false,
    }
}

pub open spec fn same_opt_type(a: Option<Type>, b: Option<Type>) -> bool {
    match (a, b) {
        (Some(x), Some(y)) => type_view(x) == type_view(y),
        (None, None) => true,
        _ => false,
    }
}

pub open spec fn same_texts(a: Seq<String>, b: Seq<String>) -> bool {
    a.len() == b.len() && forall|i: int| 0 <= i < a.len() ==> (#[trigger] a[i])@ == b[i]@
}

pub open spec fn same_pattern(a: MatchPattern, b: MatchPattern) -> bool {
    match (a, b) {
        (MatchPattern::Wildcard, MatchPattern::Wildcard) => true,
        (
            MatchPattern::EnumVariant { enum_name, variant, bindings },
            MatchPattern::EnumVariant { enum_name: enum_name2, variant: variant2, bindings: bindings2 },
        ) => enum_name@ == enum_name2@ && variant@ == variant2@ && same_texts(bindings@, bindings2@),
        _ => false,
    }
}

/// Whether `r` is `e` with the substitution's expressions in place of its names.
pub open spec fn put_expr(e: Expr, sub: Subst, r: Expr) -> bool
    decreases rank(sub), e,
{
    match e.kind {
        ExprKind::Ident(name) => match place(sub.params, name@) {
            Some(k) => if sub.params.len() > 0 {
                put_expr(sub.args[k], no_subst(), r)
            } else {
                false
            },
            None => r.span == e.span && match r.kind {
                ExprKind::Ident(name2) => name@ == name2@,
                _ => false,
            },
        },
        _ => r.span == e.span && put_kind(e.kind, sub, r.kind),
    }
}

pub open spec fn put_kind(e: ExprKind, sub: Subst, r: ExprKind) -> bool
    decreases rank(sub), e,
{
    match (e, r) {
        (ExprKind::Int(x0), ExprKind::Int(x02)) => x0@ == x02@,
        (ExprKind::UInt(x0), ExprKind::UInt(x02)) => x0@ == x02@,
        (ExprKind::Float(x0), ExprKind::Float(x02)) => x0 == x02,
        (ExprKind::I32(x0), ExprKind::I32(x02)) => x0 == x02,
        (ExprKind::U32(x0), ExprKind::U32(x02)) => x0 == x02,
        (ExprKind::U64(x0), ExprKind::U64(x02)) => x0 == x02,
        (ExprKind::U128(x0), ExprKind::U128(x02)) => x0 == x02,
        (ExprKind::JsonObject(x0), ExprKind::JsonObject(x02)) => put_fields(x0@, sub, x02@),
        (ExprKind::JsonArray(x0), ExprKind::JsonArray(x02)) => put_exprs(x0@, sub, x02@),
        (ExprKind::JsonNull, ExprKind::JsonNull) => true,
        (ExprKind::Bool(x0), ExprKind::Bool(x02)) => x0 == x02,
        (ExprKind::Str(x0), ExprKind::Str(x02)) => x0@ == x02@,
        (ExprKind::Binary { op, lhs, rhs }, ExprKind::Binary { op: op2, lhs: lhs2, rhs: rhs2 }) => op == op2 && put_expr(*lhs, sub, *lhs2) && put_expr(
            *rhs,
            sub,
            *rhs2,
        ),
        (ExprKind::Unary { op, operand }, ExprKind::Unary { op: op2, operand: operand2 }) => op == op2 && put_expr(
            *operand,
            sub,
            *operand2,
        ),
        (ExprKind::Call { module, name, args }, ExprKind::Call { module: module2, name: name2, args: args2 }) => same_opt_text(module, module2) && name@ == name2@ && put_exprs(
            args@,
            sub,
            args2@,
        ),
        (
            ExprKind::DynCall { target_ident, method, args, method_is_view, method_is_pure },
            ExprKind::DynCall {
                target_ident: target_ident2,
                method: method2,
                args: args2,
                method_is_view: method_is_view2,
                method_is_pure: method_is_pure2,
            },
        ) => target_ident@ == target_ident2@ && method@ == method2@ && put_exprs(args@, sub, args2@) && method_is_view == method_is_view2 && method_is_pure == method_is_pure2,
        (ExprKind::Index { target, key }, ExprKind::Index { target: target2, key: key2 }) => put_expr(*target, sub, *target2) && put_expr(
            *key,
            sub,
            *key2,
        ),
        (ExprKind::Array(x0), ExprKind::Array(x02)) => put_exprs(x0@, sub, x02@),
        (ExprKind::StructLit { name, fields }, ExprKind::StructLit { name: name2, fields: fields2 }) => name@ == name2@ && put_fields(
            fields@,
            sub,
            fields2@,
        ),
        (
            ExprKind::Field { target, name },
            ExprKind::Field { target: target2, name: name2 },
        ) => put_expr(*target, sub, *target2) && name@ == name2@,
        (ExprKind::Pipe { head, step }, ExprKind::Pipe { head: head2, step: step2 }) => put_expr(*head, sub, *head2) && put_expr(
            *step,
            sub,
            *step2,
        ),
        (ExprKind::Prev, ExprKind::Prev) => true,
        (ExprKind::ListComp { mapper, clauses }, ExprKind::ListComp { mapper: mapper2, clauses: clauses2 }) => put_expr(*mapper, sub, *mapper2) && put_clauses(
            clauses@,
            sub,
            clauses2@,
        ),
        (ExprKind::SetLit(x0), ExprKind::SetLit(x02)) => put_exprs(x0@, sub, x02@),
        (ExprKind::SetComp { mapper, clauses }, ExprKind::SetComp { mapper: mapper2, clauses: clauses2 }) => put_expr(*mapper, sub, *mapper2) && put_clauses(
            clauses@,
            sub,
            clauses2@,
        ),
        (ExprKind::DictLit(x0), ExprKind::DictLit(x02)) => put_pairs(x0@, sub, x02@),
        (ExprKind::DictComp { key, value, clauses }, ExprKind::DictComp { key: key2, value: value2, clauses: clauses2 }) => put_expr(*key, sub, *key2) && put_expr(*value, sub, *value2) && put_clauses(
            clauses@,
            sub,
            clauses2@,
        ),
        (ExprKind::TupleLit(x0), ExprKind::TupleLit(x02)) => put_exprs(x0@, sub, x02@),
        (
            ExprKind::TupleIndex { target, index },
            ExprKind::TupleIndex { target: target2, index: index2 },
        ) => put_expr(*target, sub, *target2) && index == index2,
        (ExprKind::EnumCtor { enum_name, variant, args }, ExprKind::EnumCtor { enum_name: enum_name2, variant: variant2, args: args2 }) => enum_name@ == enum_name2@ && variant@ == variant2@ && put_exprs(
            args@,
            sub,
            args2@,
        ),
        (ExprKind::Match { scrut, arms }, ExprKind::Match { scrut: scrut2, arms: arms2 }) => put_expr(*scrut, sub, *scrut2) && put_arms(
            arms@,
            sub,
            arms2@,
        ),
        (ExprKind::Block(x0), ExprKind::Block(x02)) => put_block(x0, sub, x02),
        (ExprKind::If { cond, then_block, else_branch }, ExprKind::If { cond: cond2, then_block: then_block2, else_branch: else_branch2 }) => put_expr(*cond, sub, *cond2) && put_block(then_block, sub, then_block2) && put_else(
            else_branch,
            sub,
            else_branch2,
        ),
        _ => false,
    }
}

pub open spec fn put_opt(e: Option<Expr>, sub: Subst, r: Option<Expr>) -> bool
    decreases rank(sub), e,
{
    match (e, r) {
        (Some(a), Some(b)) => put_expr(a, sub, b),
        (None, None) => true,
        _ => false,
    }
}

pub open spec fn put_tail(e: Option<Box<Expr>>, sub: Subst, r: Option<Box<Expr>>) -> bool
    decreases rank(sub), e,
{
    match (e, r) {
        (Some(a), Some(b)) => put_expr(*a, sub, *b),
        (None, None) => true,
        _ => false,
    }
}

pub open spec fn put_exprs(s: Seq<Expr>, sub: Subst, t: Seq<Expr>) -> bool
    decreases rank(sub), s,
{
    s.len() == t.len() && forall|i: int| 0 <= i < s.len() ==> put_expr(s[i], sub, #[trigger] t[i])
}

pub open spec fn put_fields(s: Seq<(String, Expr)>, sub: Subst, t: Seq<(String, Expr)>) -> bool
    decreases rank(sub), s,
{
    s.len() == t.len() && forall|i: int| 0 <= i < s.len() ==> s[i].0@ == t[i].0@ && put_expr(
        s[i].1,
        sub,
        (#[trigger] t[i]).1,
    )
}

pub open spec fn put_pairs(s: Seq<(Expr, Expr)>, sub: Subst, t: Seq<(Expr, Expr)>) -> bool
    decreases rank(sub), s,
{
    s.len() == t.len() && forall|i: int| 0 <= i < s.len() ==> put_expr(s[i].0, sub, (#[trigger] t[i]).0) && put_expr(
        s[i].1,
        sub,
        t[i].1,
    )
}

/// Whether `t` is the statements `s` under a substitution: one for each, but a
/// filled `_;` gives all the statements that fill it.
pub open spec fn put_stmts(s: Seq<Stmt>, sub: Subst, t: Seq<Stmt>) -> bool
    decreases rank(sub), s,
{
    if s.len() == 0 {
        t.len() == 0
    } else if s.last() is Placeholder && sub.fill is Some {
        let inner = sub.fill->0;
        &&& t.len() >= inner.len()
        &&& put_stmts(s.drop_last(), sub, t.take(t.len() - inner.len()))
        &&& put_stmts(inner, no_subst(), t.skip(t.len() - inner.len()))
    } else {
        &&& t.len() > 0
        &&& put_stmts(s.drop_last(), sub, t.drop_last())
        &&& put_stmt(s.last(), sub, t.last())
    }
}

pub open spec fn put_clauses(s: Seq<CompClause>, sub: Subst, t: Seq<CompClause>) -> bool
    decreases rank(sub), s,
{
    s.len() == t.len() && forall|i: int| 0 <= i < s.len() ==> put_clause(s[i], sub, #[trigger] t[i])
}

pub open spec fn put_arms(s: Seq<MatchArm>, sub: Subst, t: Seq<MatchArm>) -> bool
    decreases rank(sub), s,
{
    s.len() == t.len() && forall|i: int| 0 <= i < s.len() ==> put_arm(s[i], sub, #[trigger] t[i])
}

pub open spec fn put_clause(e: CompClause, sub: Subst, r: CompClause) -> bool
    decreases rank(sub), e,
{
    match (e, r) {
        (CompClause::For { var, iter }, CompClause::For { var: var2, iter: iter2 }) => var@ == var2@
            && put_expr(iter, sub, iter2),
        (CompClause::If(a), CompClause::If(b)) => put_expr(a, sub, b),
        _ => false,
    }
}

pub open spec fn put_arm(e: MatchArm, sub: Subst, r: MatchArm) -> bool
    decreases rank(sub), e,
{
    same_pattern(e.pattern, r.pattern) && put_expr(e.body, sub, r.body) && e.span == r.span
}

pub open spec fn put_block(e: Block, sub: Subst, r: Block) -> bool
    decreases rank(sub), e,
{
    put_stmts(e.stmts@, sub, r.stmts@) && put_tail(e.tail, sub, r.tail) && e.span == r.span
}

pub open spec fn put_if(e: IfStmt, sub: Subst, r: IfStmt) -> bool
    decreases rank(sub), e,
{
    put_expr(e.cond, sub, r.cond) && put_block(e.then_block, sub, r.then_block) && put_else(
        e.else_branch,
        sub,
        r.else_branch,
    ) && e.span == r.span
}

pub open spec fn put_else(e: ElseBranch, sub: Subst, r: ElseBranch) -> bool
    decreases rank(sub), e,
{
    match (e, r) {
        (ElseBranch::Absent, ElseBranch::Absent) => true,
        (ElseBranch::Block(a), ElseBranch::Block(b)) => put_block(a, sub, b),
        (ElseBranch::If(a), ElseBranch::If(b)) => put_if(*a, sub, *b),
        _ => false,
    }
}

/// Whether `r` is the statement `e` with the substitution's expressions in place
/// of its names.
pub open spec fn put_stmt(e: Stmt, sub: Subst, r: Stmt) -> bool
    decreases rank(sub), e,
{
    match (e, r) {
        (
            Stmt::Let { name, ty, value, span },
            Stmt::Let { name: name2, ty: ty2, value: value2, span: span2 },
        ) => name@ == name2@ && same_opt_type(ty, ty2) && put_expr(value, sub, value2) && span == span2,
        (
            Stmt::Assign { target, value, span },
            Stmt::Assign { target: target2, value: value2, span: span2 },
        ) => put_expr(target, sub, target2) && put_expr(value, sub, value2) && span == span2,
        (
            Stmt::Return { value, span },
            Stmt::Return { value: value2, span: span2 },
        ) => put_opt(value, sub, value2) && span == span2,
        (Stmt::If(x0), Stmt::If(x02)) => put_if(x0, sub, x02),
        (
            Stmt::While { cond, body, span },
            Stmt::While { cond: cond2, body: body2, span: span2 },
        ) => put_expr(cond, sub, cond2) && put_block(body, sub, body2) && span == span2,
        (
            Stmt::For { var, iter, body, span },
            Stmt::For { var: var2, iter: iter2, body: body2, span: span2 },
        ) => var@ == var2@ && put_expr(iter, sub, iter2) && put_block(body, sub, body2) && span == span2,
        (
            Stmt::ForRange { var, start, end, inclusive, body, span },
            Stmt::ForRange {
                var: var2,
                start: start2,
                end: end2,
                inclusive: inclusive2,
                body: body2,
                span: span2,
            },
        ) => var@ == var2@ && put_expr(start, sub, start2) && put_expr(end, sub, end2) && inclusive == inclusive2 && put_block(body, sub, body2) && span == span2,
        (Stmt::Break(x0), Stmt::Break(x02)) => x0 == x02,
        (Stmt::Continue(x0), Stmt::Continue(x02)) => x0 == x02,
        (Stmt::Expr(x0), Stmt::Expr(x02)) => put_expr(x0, sub, x02),
        (
            Stmt::Parallel { stmts, span },
            Stmt::Parallel { stmts: stmts2, span: span2 },
        ) => put_stmts(stmts@, sub, stmts2@) && span == span2,
        (
            Stmt::ParallelForTo { id_var, source, output, body, span },
            Stmt::ParallelForTo {
                id_var: id_var2,
                source: source2,
                output: output2,
                body: body2,
                span: span2,
            },
        ) => id_var@ == id_var2@ && put_expr(source, sub, source2) && put_expr(output, sub, output2) && put_block(body, sub, body2) && span == span2,
        (
            Stmt::Emit { value, span },
            Stmt::Emit { value: value2, span: span2 },
        ) => put_expr(*value, sub, *value2) && span == span2,
        (
            Stmt::Delete { target, span },
            Stmt::Delete { target: target2, span: span2 },
        ) => put_expr(target, sub, target2) && span == span2,
        (
            Stmt::LetTuple { names, value, span },
            Stmt::LetTuple { names: names2, value: value2, span: span2 },
        ) => same_texts(names@, names2@) && put_expr(value, sub, value2) && span == span2,
        (Stmt::Placeholder(x0), Stmt::Placeholder(x02)) => x0 == x02,
        _ => false,
    }
}

pub open spec fn subst_of(params: Vec<Param>, args: Vec<Expr>, fill: Option<&Vec<Stmt>>) -> Subst {
    Subst {
        params: params@,
        args: args@,
        fill: match fill {
            Some(v) => Some(v@),
            None => None,
        },
    }
}

fn copy_opt_text(a: &Option<String>) -> (r: Option<String>)
    ensures
        same_opt_text(*a, r),
{
    match a {
        Some(x) => Some(x.clone()),
        None => None,
    }
}

fn copy_opt_type(a: &Option<Type>) -> (r: Option<Type>)
    ensures
        same_opt_type(*a, r),
{
    match a {
        Some(x) => Some(x.copy()),
        None => None,
    }
}

/// A copy of a list of names.
pub fn copy_texts(a: &Vec<String>) -> (r: Vec<String>)
    ensures
        same_texts(a@, r@),
{
    let mut r: Vec<String> = Vec::new();
    let mut i: usize = 0;
    while i < a.len()
        invariant
            i <= a@.len(),
            r@.len() == i,
            forall|j: int| 0 <= j < i ==> (#[trigger] a@[j])@ == r@[j]@,
        decreases a@.len() - i,
    {
        r.push(a[i].clone());
        i = i + 1;
    }
    r
}

fn copy_pattern(a: &MatchPattern) -> (r: MatchPattern)
    ensures
        same_pattern(*a, r),
{
    match a {
        MatchPattern::Wildcard => MatchPattern::Wildcard,
        MatchPattern::EnumVariant { enum_name, variant, bindings } => MatchPattern::EnumVariant {
            enum_name: enum_name.clone(),
            variant: variant.clone(),
            bindings: copy_texts(bindings),
        },
    }
}

impl Type {
    /// A copy of a type.
    #[verifier::rlimit(30)]
    pub fn copy(&self) -> (r: Type)
        ensures
            type_view(r) == type_view(*self),
        decreases self,
    {
        match self {

            Type::Int => Type::Int,
            Type::UInt => Type::UInt,
            Type::Float => Type::Float,
            Type::I32 => Type::I32,
            Type::U32 => Type::U32,
            Type::U64 => Type::U64,
            Type::U128 => Type::U128,
            Type::Bool => Type::Bool,
            Type::Unit => Type::Unit,
            Type::Resource => Type::Resource,
            Type::String => Type::String,
            Type::Address => Type::Address,
            Type::Bytes => Type::Bytes,
            Type::Json => Type::Json,
            Type::Array(e) => Type::Array(Box::new(e.copy())),
            Type::SetOf(e) => Type::SetOf(Box::new(e.copy())),
            Type::PVec { elem } => Type::PVec { elem: Box::new(elem.copy()) },
            Type::Dict { key, value } => Type::Dict {
                key: Box::new(key.copy()),
                value: Box::new(value.copy()),
            },
            Type::MapOf { key, value } => Type::MapOf {
                key: Box::new(key.copy()),
                value: Box::new(value.copy()),
            },
            Type::PMap { key, value } => Type::PMap {
                key: Box::new(key.copy()),
                value: Box::new(value.copy()),
            },
            Type::PBTree { key, value } => Type::PBTree {
                key: Box::new(key.copy()),
                value: Box::new(value.copy()),
            },
            Type::Tuple(es) => {
                let copies = copy_types(es);
                assert(type_views(copies@) =~= type_views(es@));
                Type::Tuple(copies)
            },
            Type::Struct { name, fields, field_groups } => {
                let r = Type::Struct {
                    name: name.clone(),
                    fields: copy_type_fields(fields),
                    field_groups: copy_groups(field_groups),
                };
                assert(type_view(r)->members =~= type_view(*self)->members);
                r
            },
            Type::Enum { name, variants } => {
                let r = Type::Enum { name: name.clone(), variants: copy_variants(variants) };
                assert(type_view(r)->members =~= type_view(*self)->members);
                r
            },
            Type::Cap { name, fields, owner_module } => {
                let r = Type::Cap {
                    name: name.clone(),
                    fields: copy_type_fields(fields),
                    owner_module: owner_module.clone(),
                };
                assert(type_view(r)->members =~= type_view(*self)->members);
                r
            },
            Type::Interface { name, methods } => {
                let r = Type::Interface { name: name.clone(), methods: copy_methods(methods) };
                assert(type_view(r)->members =~= type_view(*self)->members);
                r
            },
        }
    }
}

fn copy_groups(a: &Vec<Option<String>>) -> (r: Vec<Option<String>>)
    ensures
        forall|i: int| #[trigger] group_of(a@, i) == group_of(r@, i),
{
    let mut r: Vec<Option<String>> = Vec::new();
    let mut i: usize = 0;
    while i < a.len()
        invariant
            i <= a@.len(),
            r@.len() == i,
            forall|j: int| 0 <= j < i ==> same_opt_text(#[trigger] a@[j], r@[j]),
        decreases a@.len() - i,
    {
        r.push(copy_opt_text(&a[i]));
        i = i + 1;
    }
    assert forall|j: int| #[trigger] group_of(a@, j) == group_of(r@, j) by {
        if 0 <= j < a@.len() {
            assert(same_opt_text(a@[j], r@[j]));
        }
    }
    r
}

#[verifier::loop_isolation(false)]
pub fn copy_types(a: &Vec<Type>) -> (r: Vec<Type>)
    ensures
        r@.len() == a@.len(),
        forall|j: int| 0 <= j < a@.len() ==> type_view(#[trigger] r@[j]) == type_view(a@[j]),
    decreases a,
{
    let mut r: Vec<Type> = Vec::new();
    let mut i: usize = 0;
    while i < a.len()
        invariant
            i <= a@.len(),
            r@.len() == i,
            forall|j: int| 0 <= j < i ==> type_view(#[trigger] r@[j]) == type_view(a@[j]),
        decreases a@.len() - i,
    {
        r.push(a[i].copy());
        i = i + 1;
    }
    r
}

#[verifier::loop_isolation(false)]
fn copy_type_fields(a: &Vec<(String, Type)>) -> (r: Vec<(String, Type)>)
    ensures
        r@.len() == a@.len(),
        forall|j: int| 0 <= j < a@.len() ==> (#[trigger] r@[j]).0@ == a@[j].0@
            && type_view(r@[j].1) == type_view(a@[j].1),
    decreases a,
{
    let mut r: Vec<(String, Type)> = Vec::new();
    let mut i: usize = 0;
    while i < a.len()
        invariant
            i <= a@.len(),
            r@.len() == i,
            forall|j: int| 0 <= j < i ==> (#[trigger] r@[j]).0@ == a@[j].0@
                && type_view(r@[j].1) == type_view(a@[j].1),
        decreases a@.len() - i,
    {
        r.push((a[i].0.clone(), a[i].1.copy()));
        i = i + 1;
    }
    r
}

#[verifier::loop_isolation(false)]
fn copy_variants(a: &Vec<(String, Vec<Type>)>) -> (r: Vec<(String, Vec<Type>)>)
    ensures
        r@.len() == a@.len(),
        forall|j: int| 0 <= j < a@.len() ==> (#[trigger] r@[j]).0@ == a@[j].0@
            && type_views(r@[j].1@) == type_views(a@[j].1@),
    decreases a,
{
    let mut r: Vec<(String, Vec<Type>)> = Vec::new();
    let mut i: usize = 0;
    while i < a.len()
        invariant
            i <= a@.len(),
            r@.len() == i,
            forall|j: int| 0 <= j < i ==> (#[trigger] r@[j]).0@ == a@[j].0@
                && type_views(r@[j].1@) == type_views(a@[j].1@),
        decreases a@.len() - i,
    {
        let payload = copy_types(&a[i].1);
        assert(type_views(payload@) =~= type_views(a@[i as int].1@));
        r.push((a[i].0.clone(), payload));
        i = i + 1;
    }
    r
}

#[verifier::loop_isolation(false)]
fn copy_methods(a: &Vec<InterfaceMethodSig>) -> (r: Vec<InterfaceMethodSig>)
    ensures
        r@.len() == a@.len(),
        forall|j: int| 0 <= j < a@.len() ==> (#[trigger] r@[j]).name@ == a@[j].name@
            && type_views(r@[j].params@) == type_views(a@[j].params@)
            && type_view(r@[j].return_type) == type_view(a@[j].return_type)
            && r@[j].is_view == a@[j].is_view
            && r@[j].is_pure == a@[j].is_pure,
    decreases a,
{
    let mut r: Vec<InterfaceMethodSig> = Vec::new();
    let mut i: usize = 0;
    while i < a.len()
        invariant
            i <= a@.len(),
            r@.len() == i,
            forall|j: int| 0 <= j < i ==> (#[trigger] r@[j]).name@ == a@[j].name@
                && type_views(r@[j].params@) == type_views(a@[j].params@)
                && type_view(r@[j].return_type) == type_view(a@[j].return_type)
                && r@[j].is_view == a@[j].is_view
                && r@[j].is_pure == a@[j].is_pure,
        decreases a@.len() - i,
    {
        let params = copy_types(&a[i].params);
        assert(type_views(params@) =~= type_views(a@[i as int].params@));
        r.push(
            InterfaceMethodSig {
                name: a[i].name.clone(),
                params,
                return_type: a[i].return_type.copy(),
                is_view: a[i].is_view,
                is_pure: a[i].is_pure,
            },
        );
        i = i + 1;
    }
    r
}

/// A copy of an expression, with the `given` expressions in place of the `formal` names.
pub fn copy_expr(e: &Expr, formal: &Vec<Param>, given: &Vec<Expr>, fill: Option<&Vec<Stmt>>) -> (r: Expr)
    requires
        formal@.len() == given@.len(),
    ensures
        put_expr(*e, subst_of(*formal, *given, fill), r),
    decreases rank(subst_of(*formal, *given, fill)), e,
{
    match &e.kind {
        ExprKind::Ident(name) => match find_last(formal, name.as_str()) {
            Some(k) => {
                let no_params: Vec<Param> = Vec::new();
                let no_args: Vec<Expr> = Vec::new();
                proof {
                    crate::tables::lemma_place(formal@, name@);
                    assert(subst_of(no_params, no_args, None) == no_subst());
                }
                copy_expr(&given[k], &no_params, &no_args, None)
            },
            None => Expr { kind: ExprKind::Ident(name.clone()), span: e.span },
        },
        _ => Expr { kind: copy_kind(&e.kind, formal, given, fill), span: e.span },
    }
}

#[verifier::rlimit(60)]
fn copy_kind(e: &ExprKind, formal: &Vec<Param>, given: &Vec<Expr>, fill: Option<&Vec<Stmt>>) -> (r: ExprKind)
    requires
        formal@.len() == given@.len(),
        !(*e is Ident),
    ensures
        put_kind(*e, subst_of(*formal, *given, fill), r),
    decreases rank(subst_of(*formal, *given, fill)), e,
{
    match e {
        ExprKind::Int(x0) => ExprKind::Int(x0.copy()),
        ExprKind::UInt(x0) => ExprKind::UInt(x0.copy()),
        ExprKind::Float(x0) => ExprKind::Float(*x0),
        ExprKind::I32(x0) => ExprKind::I32(*x0),
        ExprKind::U32(x0) => ExprKind::U32(*x0),
        ExprKind::U64(x0) => ExprKind::U64(*x0),
        ExprKind::U128(x0) => ExprKind::U128(*x0),
        ExprKind::JsonObject(x0) => ExprKind::JsonObject(copy_fields(x0, formal, given, fill)),
        ExprKind::JsonArray(x0) => ExprKind::JsonArray(copy_exprs(x0, formal, given, fill)),
        ExprKind::JsonNull => ExprKind::JsonNull,
        ExprKind::Bool(x0) => ExprKind::Bool(*x0),
        ExprKind::Str(x0) => ExprKind::Str(x0.clone()),
        ExprKind::Binary { op, lhs, rhs } => ExprKind::Binary {
            op: *op,
            lhs: Box::new(copy_expr(lhs, formal, given, fill)),
            rhs: Box::new(copy_expr(rhs, formal, given, fill)),
        },
        ExprKind::Unary { op, operand } => ExprKind::Unary {
            op: *op,
            operand: Box::new(copy_expr(operand, formal, given, fill)),
        },
        ExprKind::Call { module, name, args } => ExprKind::Call {
            module: copy_opt_text(module),
            name: name.clone(),
            args: copy_exprs(args, formal, given, fill),
        },
        ExprKind::DynCall { target_ident, method, args, method_is_view, method_is_pure } => ExprKind::DynCall {
            target_ident: target_ident.clone(),
            method: method.clone(),
            args: copy_exprs(args, formal, given, fill),
            method_is_view: *method_is_view,
            method_is_pure: *method_is_pure,
        },
        ExprKind::Index { target, key } => ExprKind::Index {
            target: Box::new(copy_expr(target, formal, given, fill)),
            key: Box::new(copy_expr(key, formal, given, fill)),
        },
        ExprKind::Array(x0) => ExprKind::Array(copy_exprs(x0, formal, given, fill)),
        ExprKind::StructLit { name, fields } => ExprKind::StructLit {
            name: name.clone(),
            fields: copy_fields(fields, formal, given, fill),
        },
        ExprKind::Field { target, name } => ExprKind::Field {
            target: Box::new(copy_expr(target, formal, given, fill)),
            name: name.clone(),
        },
        ExprKind::Pipe { head, step } => ExprKind::Pipe {
            head: Box::new(copy_expr(head, formal, given, fill)),
            step: Box::new(copy_expr(step, formal, given, fill)),
        },
        ExprKind::Prev => ExprKind::Prev,
        ExprKind::ListComp { mapper, clauses } => ExprKind::ListComp {
            mapper: Box::new(copy_expr(mapper, formal, given, fill)),
            clauses: copy_clauses(clauses, formal, given, fill),
        },
        ExprKind::SetLit(x0) => ExprKind::SetLit(copy_exprs(x0, formal, given, fill)),
        ExprKind::SetComp { mapper, clauses } => ExprKind::SetComp {
            mapper: Box::new(copy_expr(mapper, formal, given, fill)),
            clauses: copy_clauses(clauses, formal, given, fill),
        },
        ExprKind::DictLit(x0) => ExprKind::DictLit(copy_pairs(x0, formal, given, fill)),
        ExprKind::DictComp { key, value, clauses } => ExprKind::DictComp {
            key: Box::new(copy_expr(key, formal, given, fill)),
            value: Box::new(copy_expr(value, formal, given, fill)),
            clauses: copy_clauses(clauses, formal, given, fill),
        },
        ExprKind::TupleLit(x0) => ExprKind::TupleLit(copy_exprs(x0, formal, given, fill)),
        ExprKind::TupleIndex { target, index } => ExprKind::TupleIndex {
            target: Box::new(copy_expr(target, formal, given, fill)),
            index: *index,
        },
        ExprKind::EnumCtor { enum_name, variant, args } => ExprKind::EnumCtor {
            enum_name: enum_name.clone(),
            variant: variant.clone(),
            args: copy_exprs(args, formal, given, fill),
        },
        ExprKind::Match { scrut, arms } => ExprKind::Match {
            scrut: Box::new(copy_expr(scrut, formal, given, fill)),
            arms: copy_arms(arms, formal, given, fill),
        },
        ExprKind::Block(x0) => ExprKind::Block(copy_block(x0, formal, given, fill)),
        ExprKind::If { cond, then_block, else_branch } => ExprKind::If {
            cond: Box::new(copy_expr(cond, formal, given, fill)),
            then_block: copy_block(then_block, formal, given, fill),
            else_branch: copy_else(else_branch, formal, given, fill),
        },
        ExprKind::Ident(name) => ExprKind::Ident(name.clone()),
    }
}

fn copy_tail(e: &Option<Box<Expr>>, formal: &Vec<Param>, given: &Vec<Expr>, fill: Option<&Vec<Stmt>>) -> (r: Option<Box<Expr>>)
    requires
        formal@.len() == given@.len(),
    ensures
        put_tail(*e, subst_of(*formal, *given, fill), r),
    decreases rank(subst_of(*formal, *given, fill)), e,
{
    match e {
        Some(x) => Some(Box::new(copy_expr(x, formal, given, fill))),
        None => None,
    }
}

#[verifier::loop_isolation(false)]
fn copy_exprs(v: &Vec<Expr>, formal: &Vec<Param>, given: &Vec<Expr>, fill: Option<&Vec<Stmt>>) -> (r: Vec<Expr>)
    requires
        formal@.len() == given@.len(),
    ensures
        put_exprs(v@, subst_of(*formal, *given, fill), r@),
    decreases rank(subst_of(*formal, *given, fill)), v,
{
    let ghost sub = subst_of(*formal, *given, fill);
    let mut r: Vec<Expr> = Vec::new();
    let mut i: usize = 0;
    while i < v.len()
        invariant
            i <= v@.len(),
            r@.len() == i,
            forall|j: int| 0 <= j < i ==> put_expr(v@[j], sub, #[trigger] r@[j]),
        decreases v@.len() - i,
    {
        r.push(copy_expr(&v[i], formal, given, fill));
        i = i + 1;
    }
    r
}

#[verifier::loop_isolation(false)]
fn copy_fields(v: &Vec<(String, Expr)>, formal: &Vec<Param>, given: &Vec<Expr>, fill: Option<&Vec<Stmt>>) -> (r: Vec<(String, Expr)>)
    requires
        formal@.len() == given@.len(),
    ensures
        put_fields(v@, subst_of(*formal, *given, fill), r@),
    decreases rank(subst_of(*formal, *given, fill)), v,
{
    let ghost sub = subst_of(*formal, *given, fill);
    let mut r: Vec<(String, Expr)> = Vec::new();
    let mut i: usize = 0;
    while i < v.len()
        invariant
            i <= v@.len(),
            r@.len() == i,
            forall|j: int| 0 <= j < i ==> v@[j].0@ == r@[j].0@
                && put_expr(v@[j].1, sub, (#[trigger] r@[j]).1),
        decreases v@.len() - i,
    {
        r.push((v[i].0.clone(), copy_expr(&v[i].1, formal, given, fill)));
        i = i + 1;
    }
    r
}

#[verifier::loop_isolation(false)]
fn copy_pairs(v: &Vec<(Expr, Expr)>, formal: &Vec<Param>, given: &Vec<Expr>, fill: Option<&Vec<Stmt>>) -> (r: Vec<(Expr, Expr)>)
    requires
        formal@.len() == given@.len(),
    ensures
        put_pairs(v@, subst_of(*formal, *given, fill), r@),
    decreases rank(subst_of(*formal, *given, fill)), v,
{
    let ghost sub = subst_of(*formal, *given, fill);
    let mut r: Vec<(Expr, Expr)> = Vec::new();
    let mut i: usize = 0;
    while i < v.len()
        invariant
            i <= v@.len(),
            r@.len() == i,
            forall|j: int| 0 <= j < i ==> put_expr(v@[j].0, sub, (#[trigger] r@[j]).0) && put_expr(
                v@[j].1,
                sub,
                r@[j].1,
            ),
        decreases v@.len() - i,
    {
        r.push((copy_expr(&v[i].0, formal, given, fill), copy_expr(&v[i].1, formal, given, fill)));
        i = i + 1;
    }
    r
}

#[verifier::loop_isolation(false)]
fn copy_clauses(v: &Vec<CompClause>, formal: &Vec<Param>, given: &Vec<Expr>, fill: Option<&Vec<Stmt>>) -> (r: Vec<CompClause>)
    requires
        formal@.len() == given@.len(),
    ensures
        put_clauses(v@, subst_of(*formal, *given, fill), r@),
    decreases rank(subst_of(*formal, *given, fill)), v,
{
    let ghost sub = subst_of(*formal, *given, fill);
    let mut r: Vec<CompClause> = Vec::new();
    let mut i: usize = 0;
    while i < v.len()
        invariant
            i <= v@.len(),
            r@.len() == i,
            forall|j: int| 0 <= j < i ==> put_clause(v@[j], sub, #[trigger] r@[j]),
        decreases v@.len() - i,
    {
        let c = match &v[i] {
            CompClause::For { var, iter } => CompClause::For {
                var: var.clone(),
                iter: copy_expr(iter, formal, given, fill),
            },
            CompClause::If(e) => CompClause::If(copy_expr(e, formal, given, fill)),
        };
        assert(put_clause(v@[i as int], sub, c));
        r.push(c);
        i = i + 1;
    }
    r
}

#[verifier::loop_isolation(false)]
fn copy_arms(v: &Vec<MatchArm>, formal: &Vec<Param>, given: &Vec<Expr>, fill: Option<&Vec<Stmt>>) -> (r: Vec<MatchArm>)
    requires
        formal@.len() == given@.len(),
    ensures
        put_arms(v@, subst_of(*formal, *given, fill), r@),
    decreases rank(subst_of(*formal, *given, fill)), v,
{
    let ghost sub = subst_of(*formal, *given, fill);
    let mut r: Vec<MatchArm> = Vec::new();
    let mut i: usize = 0;
    while i < v.len()
        invariant
            i <= v@.len(),
            r@.len() == i,
            forall|j: int| 0 <= j < i ==> put_arm(v@[j], sub, #[trigger] r@[j]),
        decreases v@.len() - i,
    {
        let a = MatchArm {
            pattern: copy_pattern(&v[i].pattern),
            body: copy_expr(&v[i].body, formal, given, fill),
            span: v[i].span,
        };
        assert(put_arm(v@[i as int], sub, a));
        r.push(a);
        i = i + 1;
    }
    r
}

/// A plain copy has as many statements as what it copies.
proof fn lemma_put_len(s: Seq<Stmt>, t: Seq<Stmt>)
    requires
        put_stmts(s, no_subst(), t),
    ensures
        s.len() == t.len(),
    decreases s.len(),
{
    if s.len() > 0 {
        lemma_put_len(s.drop_last(), t.drop_last());
    }
}

/// A copy of a list of statements, with the `given` expressions in place of the
/// `formal` names and the statements of `fill` in place of every `_;`.
#[verifier::loop_isolation(false)]
pub fn copy_stmts(v: &Vec<Stmt>, formal: &Vec<Param>, given: &Vec<Expr>, fill: Option<&Vec<Stmt>>) -> (r: Vec<Stmt>)
    requires
        formal@.len() == given@.len(),
    ensures
        put_stmts(v@, subst_of(*formal, *given, fill), r@),
    decreases rank(subst_of(*formal, *given, fill)), v,
{
    let ghost sub = subst_of(*formal, *given, fill);
    let mut r: Vec<Stmt> = Vec::new();
    let mut i: usize = 0;
    while i < v.len()
        invariant
            i <= v@.len(),
            put_stmts(v@.take(i as int), sub, r@),
        decreases v@.len() - i,
    {
        let ghost before = r@;
        assert(v@.take(i as int + 1).drop_last() =~= v@.take(i as int));
        match (&v[i], fill) {
            (Stmt::Placeholder(_), Some(inner)) => {
                let none: Vec<Param> = Vec::new();
                let nothing: Vec<Expr> = Vec::new();
                assert(subst_of(none, nothing, None) == no_subst());
                let mut copied = copy_stmts(inner, &none, &nothing, None);
                let ghost tail = copied@;
                proof {
                    lemma_put_len(inner@, tail);
                }
                r.append(&mut copied);
                assert(r@.take(r@.len() - inner@.len()) =~= before);
                assert(r@.skip(r@.len() - inner@.len()) =~= tail);
            },
            (s, _) => {
                r.push(copy_stmt(s, formal, given, fill));
                assert(r@.drop_last() =~= before);
            },
        }
        i = i + 1;
    }
    assert(v@.take(i as int) =~= v@);
    r
}

fn copy_block(b: &Block, formal: &Vec<Param>, given: &Vec<Expr>, fill: Option<&Vec<Stmt>>) -> (r: Block)
    requires
        formal@.len() == given@.len(),
    ensures
        put_block(*b, subst_of(*formal, *given, fill), r),
    decreases rank(subst_of(*formal, *given, fill)), b,
{
    Block {
        stmts: copy_stmts(&b.stmts, formal, given, fill),
        tail: copy_tail(&b.tail, formal, given, fill),
        span: b.span,
    }
}

fn copy_if(i: &IfStmt, formal: &Vec<Param>, given: &Vec<Expr>, fill: Option<&Vec<Stmt>>) -> (r: IfStmt)
    requires
        formal@.len() == given@.len(),
    ensures
        put_if(*i, subst_of(*formal, *given, fill), r),
    decreases rank(subst_of(*formal, *given, fill)), i,
{
    IfStmt {
        cond: copy_expr(&i.cond, formal, given, fill),
        then_block: copy_block(&i.then_block, formal, given, fill),
        else_branch: copy_else(&i.else_branch, formal, given, fill),
        span: i.span,
    }
}

fn copy_else(e: &ElseBranch, formal: &Vec<Param>, given: &Vec<Expr>, fill: Option<&Vec<Stmt>>) -> (r: ElseBranch)
    requires
        formal@.len() == given@.len(),
    ensures
        put_else(*e, subst_of(*formal, *given, fill), r),
    decreases rank(subst_of(*formal, *given, fill)), e,
{
    match e {
        ElseBranch::Absent => ElseBranch::Absent,
        ElseBranch::Block(b) => ElseBranch::Block(copy_block(b, formal, given, fill)),
        ElseBranch::If(i) => ElseBranch::If(Box::new(copy_if(i, formal, given, fill))),
    }
}

/// A copy of a statement, with the `given` expressions in place of the `formal` names.
#[verifier::rlimit(30)]
pub fn copy_stmt(s: &Stmt, formal: &Vec<Param>, given: &Vec<Expr>, fill: Option<&Vec<Stmt>>) -> (r: Stmt)
    requires
        formal@.len() == given@.len(),
    ensures
        put_stmt(*s, subst_of(*formal, *given, fill), r),
    decreases rank(subst_of(*formal, *given, fill)), s,
{
    match s {
        Stmt::Let { name, ty, value, span } => Stmt::Let {
            name: name.clone(),
            ty: copy_opt_type(ty),
            value: copy_expr(value, formal, given, fill),
            span: *span,
        },
        Stmt::Assign { target, value, span } => Stmt::Assign {
            target: copy_expr(target, formal, given, fill),
            value: copy_expr(value, formal, given, fill),
            span: *span,
        },
        Stmt::Return { value, span } => Stmt::Return { value: match value {
                Some(x) => Some(copy_expr(x, formal, given, fill)),
                None => None,
            }, span: *span },
        Stmt::If(x0) => Stmt::If(copy_if(x0, formal, given, fill)),
        Stmt::While { cond, body, span } => Stmt::While {
            cond: copy_expr(cond, formal, given, fill),
            body: copy_block(body, formal, given, fill),
            span: *span,
        },
        Stmt::For { var, iter, body, span } => Stmt::For {
            var: var.clone(),
            iter: copy_expr(iter, formal, given, fill),
            body: copy_block(body, formal, given, fill),
            span: *span,
        },
        Stmt::ForRange { var, start, end, inclusive, body, span } => Stmt::ForRange {
            var: var.clone(),
            start: copy_expr(start, formal, given, fill),
            end: copy_expr(end, formal, given, fill),
            inclusive: *inclusive,
            body: copy_block(body, formal, given, fill),
            span: *span,
        },
        Stmt::Break(x0) => Stmt::Break(*x0),
        Stmt::Continue(x0) => Stmt::Continue(*x0),
        Stmt::Expr(x0) => Stmt::Expr(copy_expr(x0, formal, given, fill)),
        Stmt::Parallel { stmts, span } => Stmt::Parallel {
            stmts: copy_stmts(stmts, formal, given, fill),
            span: *span,
        },
        Stmt::ParallelForTo { id_var, source, output, body, span } => Stmt::ParallelForTo {
            id_var: id_var.clone(),
            source: copy_expr(source, formal, given, fill),
            output: copy_expr(output, formal, given, fill),
            body: copy_block(body, formal, given, fill),
            span: *span,
        },
        Stmt::Emit { value, span } => Stmt::Emit {
            value: Box::new(copy_expr(value, formal, given, fill)),
            span: *span,
        },
        Stmt::Delete { target, span } => Stmt::Delete {
            target: copy_expr(target, formal, given, fill),
            span: *span,
        },
        Stmt::LetTuple { names, value, span } => Stmt::LetTuple {
            names: copy_texts(names),
            value: copy_expr(value, formal, given, fill),
            span: *span,
        },
        Stmt::Placeholder(x0) => Stmt::Placeholder(*x0),
    }
}

} // verus!
