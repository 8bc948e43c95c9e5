//! What running the parts of a program does, said over the machines that a run leads
//! through: which statements run, in which order, how often, and what they see.

use vstd::prelude::*;
use crate::ast::{
    Block, CompClause, ElseBranch, Expr, ExprKind, IfStmt, MatchArm, MatchPattern, Param, Stmt,
};
use crate::error::ErrorView;
use crate::interp::{
    FlowView, Ran, after_call, arm_at, array_item, assign_of, block_flow_of, comp_each_of, comp_item_of, comp_of,
    each_of, eval_of, evals_of, fn_call_of, inside, iter_of, lookup_of, par_each_of, range_of, stmt_of, stmts_of,
    while_of, with_params,
};
use crate::machine::{MachineView, Setting, Stop, closed, inner_scope, local, opened, set_in, with_local};
use crate::ops::kind;
use crate::reckoning::{alike, number};
use crate::token::Span;
use crate::value::ValueView;

verus! {

/// A round of a loop: its body with the variable bound in a scope of the round's own.
pub open spec fn round_of(cx: Setting, fuel: nat, var: Seq<char>, v: ValueView, body: Block, m: MachineView) -> Ran<
    FlowView,
> {
    match block_flow_of(cx, fuel, body, false, with_local(opened(m), var, v)) {
        Err(x) => Err(x),
        Ok((flow, after)) => Ok((flow, closed(after))),
    }
}

/// Whether a part of a program ran and let the loop around it go on, on the machine
/// `after`: it ended normally or with `continue`.
pub open spec fn goes_on(r: Ran<FlowView>, after: MachineView) -> bool {
    r matches Ok(p) && (p.0 is Normal || p.0 == FlowView::Continue) && p.1 == after
}

/// What a loop comes to when this is what its next round comes to and the round does
/// not let it go on: `break` ends the loop, `return` and a failure end what is around
/// it too.
pub open spec fn leaves(r: Ran<FlowView>, out: Ran<FlowView>) -> bool {
    match r {
        Err(x) => out == Err::<(FlowView, MachineView), Stop>(x),
        Ok((FlowView::Break, m)) => out == Ok::<(FlowView, MachineView), Stop>((FlowView::Normal(ValueView::Unit), m)),
        Ok((FlowView::Return(v), m)) => out == Ok::<(FlowView, MachineView), Stop>((FlowView::Return(v), m)),
        _ => true,
    }
}

proof fn lemma_each(
    cx: Setting,
    fuel: nat,
    var: Seq<char>,
    s: Seq<ValueView>,
    body: Block,
    ms: Seq<MachineView>,
    n: nat,
    i: nat,
)
    requires
        fuel > 0,
        i <= n <= s.len(),
        ms.len() == n + 1,
        forall|k: int|
            0 <= k < n ==> goes_on(round_of(cx, (fuel - 1) as nat, var, #[trigger] s[k], body, ms[k]), ms[k + 1]),
    ensures
        n == s.len() ==> each_of(cx, fuel, var, s, i, body, ms[i as int]) == Ok::<(FlowView, MachineView), Stop>(
            (FlowView::Normal(ValueView::Unit), ms[n as int]),
        ),
        n < s.len() ==> leaves(
            round_of(cx, (fuel - 1) as nat, var, s[n as int], body, ms[n as int]),
            each_of(cx, fuel, var, s, i, body, ms[i as int]),
        ),
    decreases n - i,
{
    if i < n {
        assert(goes_on(
            round_of(cx, (fuel - 1) as nat, var, s[i as int], body, ms[i as int]),
            ms[i as int + 1],
        ));
        lemma_each(cx, fuel, var, s, body, ms, n, i + 1);
    }
}

/// A loop over an array runs its body once for each element, in order. After rounds
/// for the first `n` elements that end normally or with `continue`, each on the machine
/// that the one before left, it is done if there are no more elements; and if the next
/// round ends with `break`, `return` or a failure, the loop ends there.
pub proof fn a_loop_visits_every_element(
    cx: Setting,
    fuel: nat,
    var: String,
    iter: Expr,
    body: Block,
    span: Span,
    m: MachineView,
    s: Seq<ValueView>,
    ms: Seq<MachineView>,
    n: nat,
)
    requires
        n <= s.len(),
        ms.len() == n + 1,
        fuel >= 2,
        iter_of(cx, (fuel - 1) as nat, iter, m) == Ok::<(ValueView, MachineView), Stop>((ValueView::Array(s), ms[0])),
        forall|k: int|
            0 <= k < n ==> goes_on(round_of(cx, (fuel - 2) as nat, var@, #[trigger] s[k], body, ms[k]), ms[k + 1]),
    ensures
        n == s.len() ==> stmt_of(cx, fuel, (Stmt::For { var, iter, body, span }), m) == Ok::<
            (FlowView, MachineView),
            Stop,
        >((FlowView::Normal(ValueView::Unit), ms[n as int])),
        n < s.len() ==> leaves(
            round_of(cx, (fuel - 2) as nat, var@, s[n as int], body, ms[n as int]),
            stmt_of(cx, fuel, (Stmt::For { var, iter, body, span }), m),
        ),
{
    lemma_each(cx, (fuel - 1) as nat, var@, s, body, ms, n, 0);
}

/// How many integers there are from `lo` up to `hi`, with `hi` itself if it counts.
pub open spec fn span_of(lo: int, hi: int, inclusive: bool) -> nat {
    if lo > hi {
        0
    } else if inclusive {
        (hi - lo + 1) as nat
    } else {
        (hi - lo) as nat
    }
}

proof fn lemma_range_round(
    cx: Setting,
    fuel: nat,
    var: Seq<char>,
    like: int,
    i: int,
    hi: int,
    inclusive: bool,
    body: Block,
    m: MachineView,
    after: MachineView,
)
    requires
        fuel > 0,
    ensures
        span_of(i, hi, inclusive) == 0 ==> range_of(cx, fuel, var, like, i, hi, inclusive, body, m) == Ok::<
            (FlowView, MachineView),
            Stop,
        >((FlowView::Normal(ValueView::Unit), m)),
        span_of(i, hi, inclusive) > 0 ==> goes_on(
            round_of(cx, (fuel - 1) as nat, var, crate::interp::range_value(like, i), body, m),
            after,
        ) ==> range_of(cx, fuel, var, like, i, hi, inclusive, body, m) == range_of(
            cx,
            fuel,
            var,
            like,
            i + 1,
            hi,
            inclusive,
            body,
            after,
        ),
        span_of(i, hi, inclusive) > 0 ==> leaves(
            round_of(cx, (fuel - 1) as nat, var, crate::interp::range_value(like, i), body, m),
            range_of(cx, fuel, var, like, i, hi, inclusive, body, m),
        ),
{
}

proof fn lemma_range(
    cx: Setting,
    fuel: nat,
    var: Seq<char>,
    like: int,
    lo: int,
    hi: int,
    inclusive: bool,
    vs: Seq<ValueView>,
    body: Block,
    ms: Seq<MachineView>,
    n: nat,
    i: nat,
)
    requires
        fuel > 0,
        i <= n <= span_of(lo, hi, inclusive),
        vs.len() == span_of(lo, hi, inclusive),
        ms.len() == n + 1,
        forall|k: int| 0 <= k < vs.len() ==> #[trigger] vs[k] == crate::interp::range_value(like, lo + k),
        forall|k: int|
            0 <= k < n ==> goes_on(round_of(cx, (fuel - 1) as nat, var, #[trigger] vs[k], body, ms[k]), ms[k + 1]),
    ensures
        n == vs.len() ==> range_of(cx, fuel, var, like, lo + i, hi, inclusive, body, ms[i as int]) == Ok::<
            (FlowView, MachineView),
            Stop,
        >((FlowView::Normal(ValueView::Unit), ms[n as int])),
        n < vs.len() ==> leaves(
            round_of(cx, (fuel - 1) as nat, var, vs[n as int], body, ms[n as int]),
            range_of(cx, fuel, var, like, lo + i, hi, inclusive, body, ms[i as int]),
        ),
    decreases n - i,
{
    if i < n {
        assert(goes_on(
            round_of(cx, (fuel - 1) as nat, var, vs[i as int], body, ms[i as int]),
            ms[i as int + 1],
        ));
        lemma_range_round(cx, fuel, var, like, lo + i, hi, inclusive, body, ms[i as int], ms[i as int + 1]);
        lemma_range(cx, fuel, var, like, lo, hi, inclusive, vs, body, ms, n, i + 1);
    } else {
        lemma_range_round(cx, fuel, var, like, lo + i, hi, inclusive, body, ms[i as int], ms[i as int]);
    }
}

/// A loop over a range runs its body once for each integer from the first bound up to
/// the second, in order, with the second itself if the range is inclusive: in the
/// `k`-th round the variable is the value of the bounds' type that holds the first
/// bound and `k` more. After rounds for the first `n` integers that end normally or
/// with `continue` it is done if there are no more; and if the next round ends with
/// `break`, `return` or a failure, the loop ends there.
pub proof fn a_range_visits_every_integer(
    cx: Setting,
    fuel: nat,
    var: String,
    start: Expr,
    end: Expr,
    inclusive: bool,
    body: Block,
    span: Span,
    m: MachineView,
    mid: MachineView,
    a: ValueView,
    b: ValueView,
    vs: Seq<ValueView>,
    ms: Seq<MachineView>,
    n: nat,
)
    requires
        fuel >= 2,
        eval_of(cx, (fuel - 1) as nat, start, m) == Ok::<(ValueView, MachineView), Stop>((a, mid)),
        eval_of(cx, (fuel - 1) as nat, end, mid) == Ok::<(ValueView, MachineView), Stop>((b, ms[0])),
        alike(a, b),
        !(a is UInt),
        vs.len() == span_of(number(a)->0, number(b)->0, inclusive),
        forall|k: int|
            0 <= k < vs.len() ==> kind(#[trigger] vs[k]) == kind(a) && number(vs[k]) == Some(number(a)->0 + k),
        n <= vs.len(),
        ms.len() == n + 1,
        forall|k: int|
            0 <= k < n ==> goes_on(round_of(cx, (fuel - 2) as nat, var@, #[trigger] vs[k], body, ms[k]), ms[k + 1]),
    ensures
        n == vs.len() ==> stmt_of(cx, fuel, (Stmt::ForRange { var, start, end, inclusive, body, span }), m) == Ok::<
            (FlowView, MachineView),
            Stop,
        >((FlowView::Normal(ValueView::Unit), ms[n as int])),
        n < vs.len() ==> leaves(
            round_of(cx, (fuel - 2) as nat, var@, vs[n as int], body, ms[n as int]),
            stmt_of(cx, fuel, (Stmt::ForRange { var, start, end, inclusive, body, span }), m),
        ),
{
    lemma_range_kind(a, b, a, 0);
    let (like, lo, hi) = crate::interp::range_bounds(a, b)->0;
    assert forall|k: int| 0 <= k < vs.len() implies #[trigger] vs[k] == crate::interp::range_value(like, lo + k) by {
        lemma_range_kind(a, b, vs[k], k);
    }
    lemma_range(cx, (fuel - 1) as nat, var@, like, lo, hi, inclusive, vs, body, ms, n, 0);
    lemma_range_stmt(cx, fuel, var, start, end, inclusive, body, span, m, mid, a, b, ms[0]);
}

/// The values of a range are those of the bounds' type.
proof fn lemma_range_kind(a: ValueView, b: ValueView, v: ValueView, k: int)
    requires
        alike(a, b),
        !(a is UInt),
        kind(v) == kind(a),
        number(v) == Some(number(a)->0 + k),
    ensures
        crate::interp::range_bounds(a, b) matches Some(p) && p.1 == number(a)->0 && p.2 == number(b)->0 && v
            == crate::interp::range_value(p.0, p.1 + k),
{
}

proof fn lemma_range_stmt(
    cx: Setting,
    fuel: nat,
    var: String,
    start: Expr,
    end: Expr,
    inclusive: bool,
    body: Block,
    span: Span,
    m: MachineView,
    mid: MachineView,
    a: ValueView,
    b: ValueView,
    after: MachineView,
)
    requires
        fuel >= 2,
        eval_of(cx, (fuel - 1) as nat, start, m) == Ok::<(ValueView, MachineView), Stop>((a, mid)),
        eval_of(cx, (fuel - 1) as nat, end, mid) == Ok::<(ValueView, MachineView), Stop>((b, after)),
    ensures
        crate::interp::range_bounds(a, b) matches Some(p) ==> stmt_of(
            cx,
            fuel,
            (Stmt::ForRange { var, start, end, inclusive, body, span }),
            m,
        ) == range_of(cx, (fuel - 1) as nat, var@, p.0, p.1, p.2, inclusive, body, after),
{
}

proof fn lemma_while(
    cx: Setting,
    fuel: nat,
    cond: Expr,
    body: Block,
    span: Span,
    ms: Seq<MachineView>,
    cs: Seq<MachineView>,
    n: nat,
    i: nat,
)
    requires
        i <= n < fuel,
        ms.len() == n + 1,
        cs.len() == n + 1,
        forall|k: int|
            0 <= k < n ==> eval_of(cx, (fuel - 1 - k) as nat, cond, #[trigger] ms[k]) == Ok::<
                (ValueView, MachineView),
                Stop,
            >((ValueView::Bool(true), cs[k])),
        forall|k: int|
            0 <= k < n ==> goes_on(
                block_flow_of(cx, (fuel - 1 - k) as nat, body, false, #[trigger] cs[k]),
                ms[k + 1],
            ),
    ensures
        eval_of(cx, (fuel - 1 - n) as nat, cond, ms[n as int]) == Ok::<(ValueView, MachineView), Stop>(
            (ValueView::Bool(false), cs[n as int]),
        ) ==> while_of(cx, (fuel - i) as nat, cond, body, span, ms[i as int]) == Ok::<(FlowView, MachineView), Stop>(
            (FlowView::Normal(ValueView::Unit), cs[n as int]),
        ),
        eval_of(cx, (fuel - 1 - n) as nat, cond, ms[n as int]) == Ok::<(ValueView, MachineView), Stop>(
            (ValueView::Bool(true), cs[n as int]),
        ) ==> leaves(
            block_flow_of(cx, (fuel - 1 - n) as nat, body, false, cs[n as int]),
            while_of(cx, (fuel - i) as nat, cond, body, span, ms[i as int]),
        ),
        eval_of(cx, (fuel - 1 - n) as nat, cond, ms[n as int]) matches Err(x) ==> while_of(
            cx,
            (fuel - i) as nat,
            cond,
            body,
            span,
            ms[i as int],
        ) == Err::<(FlowView, MachineView), Stop>(x),
    decreases n - i,
{
    if i < n {
        assert(eval_of(cx, (fuel - 1 - i) as nat, cond, ms[i as int]) == Ok::<(ValueView, MachineView), Stop>(
            (ValueView::Bool(true), cs[i as int]),
        ));
        assert(goes_on(block_flow_of(cx, (fuel - 1 - i) as nat, body, false, cs[i as int]), ms[i as int + 1]));
        lemma_while(cx, fuel, cond, body, span, ms, cs, n, i + 1);
        assert((fuel - i - 1) as nat == (fuel - (i + 1)) as nat);
    }
}

/// A loop with a condition runs its body as long as the condition is true, and tries
/// the condition before each round. After `n` rounds that end normally or with
/// `continue` it is done if the condition is false; if it is true and the next round
/// ends with `break`, `return` or a failure, the loop ends there.
pub proof fn a_loop_runs_while_its_condition_holds(
    cx: Setting,
    fuel: nat,
    cond: Expr,
    body: Block,
    span: Span,
    ms: Seq<MachineView>,
    cs: Seq<MachineView>,
    n: nat,
)
    requires
        n < fuel,
        ms.len() == n + 1,
        cs.len() == n + 1,
        forall|k: int|
            0 <= k < n ==> eval_of(cx, (fuel - 1 - k) as nat, cond, #[trigger] ms[k]) == Ok::<
                (ValueView, MachineView),
                Stop,
            >((ValueView::Bool(true), cs[k])),
        forall|k: int|
            0 <= k < n ==> goes_on(
                block_flow_of(cx, (fuel - 1 - k) as nat, body, false, #[trigger] cs[k]),
                ms[k + 1],
            ),
    ensures
        eval_of(cx, (fuel - 1 - n) as nat, cond, ms[n as int]) == Ok::<(ValueView, MachineView), Stop>(
            (ValueView::Bool(false), cs[n as int]),
        ) ==> stmt_of(cx, fuel + 1, (Stmt::While { cond, body, span }), ms[0]) == Ok::<(FlowView, MachineView), Stop>(
            (FlowView::Normal(ValueView::Unit), cs[n as int]),
        ),
        eval_of(cx, (fuel - 1 - n) as nat, cond, ms[n as int]) == Ok::<(ValueView, MachineView), Stop>(
            (ValueView::Bool(true), cs[n as int]),
        ) ==> leaves(
            block_flow_of(cx, (fuel - 1 - n) as nat, body, false, cs[n as int]),
            stmt_of(cx, fuel + 1, (Stmt::While { cond, body, span }), ms[0]),
        ),
        eval_of(cx, (fuel - 1 - n) as nat, cond, ms[n as int]) matches Err(x) ==> stmt_of(
            cx,
            fuel + 1,
            (Stmt::While { cond, body, span }),
            ms[0],
        ) == Err::<(FlowView, MachineView), Stop>(x),
{
    lemma_while(cx, fuel, cond, body, span, ms, cs, n, 0);
}

/// Statements run in order, each on the machine that the one before left. After the
/// first `n` have ended normally the row is done if there are no more; and if the next
/// one ends otherwise, so does the row, and none behind it runs.
pub proof fn statements_run_in_order(cx: Setting, fuel: nat, s: Seq<Stmt>, ms: Seq<MachineView>, n: nat)
    requires
        fuel > 0,
        n <= s.len(),
        ms.len() == n + 1,
        forall|k: int|
            0 <= k < n ==> (stmt_of(cx, (fuel - 1) as nat, #[trigger] s[k], ms[k]) matches Ok(p) && p.0 is Normal
                && p.1 == ms[k + 1]),
    ensures
        n == s.len() ==> stmts_of(cx, fuel, s, 0, ms[0]) == Ok::<(FlowView, MachineView), Stop>(
            (FlowView::Normal(ValueView::Unit), ms[n as int]),
        ),
        n < s.len() ==> match stmt_of(cx, (fuel - 1) as nat, s[n as int], ms[n as int]) {
            Err(x) => stmts_of(cx, fuel, s, 0, ms[0]) == Err::<(FlowView, MachineView), Stop>(x),
            Ok(p) => p.0 is Normal || stmts_of(cx, fuel, s, 0, ms[0]) == Ok::<(FlowView, MachineView), Stop>(p),
        },
{
    lemma_stmts(cx, fuel, s, ms, n, 0);
}

proof fn lemma_stmts(cx: Setting, fuel: nat, s: Seq<Stmt>, ms: Seq<MachineView>, n: nat, i: nat)
    requires
        fuel > 0,
        i <= n <= s.len(),
        ms.len() == n + 1,
        forall|k: int|
            0 <= k < n ==> (stmt_of(cx, (fuel - 1) as nat, #[trigger] s[k], ms[k]) matches Ok(p) && p.0 is Normal
                && p.1 == ms[k + 1]),
    ensures
        n == s.len() ==> stmts_of(cx, fuel, s, i, ms[i as int]) == Ok::<(FlowView, MachineView), Stop>(
            (FlowView::Normal(ValueView::Unit), ms[n as int]),
        ),
        n < s.len() ==> match stmt_of(cx, (fuel - 1) as nat, s[n as int], ms[n as int]) {
            Err(x) => stmts_of(cx, fuel, s, i, ms[i as int]) == Err::<(FlowView, MachineView), Stop>(x),
            Ok(p) => p.0 is Normal || stmts_of(cx, fuel, s, i, ms[i as int]) == Ok::<(FlowView, MachineView), Stop>(p),
        },
    decreases n - i,
{
    if i < n {
        assert(stmt_of(cx, (fuel - 1) as nat, s[i as int], ms[i as int]) is Ok);
        lemma_stmts(cx, fuel, s, ms, n, i + 1);
    }
}

/// A conditional runs the branch that its condition picks, and no other.
pub proof fn a_condition_picks_its_branch(cx: Setting, fuel: nat, i: IfStmt, m: MachineView, mid: MachineView)
    requires
        fuel >= 2,
    ensures
        eval_of(cx, (fuel - 2) as nat, i.cond, m) == Ok::<(ValueView, MachineView), Stop>(
            (ValueView::Bool(true), mid),
        ) ==> stmt_of(cx, fuel, Stmt::If(i), m) == block_flow_of(cx, (fuel - 2) as nat, i.then_block, false, mid),
        eval_of(cx, (fuel - 2) as nat, i.cond, m) == Ok::<(ValueView, MachineView), Stop>(
            (ValueView::Bool(false), mid),
        ) ==> match i.else_branch {
            ElseBranch::Absent => stmt_of(cx, fuel, Stmt::If(i), m) == Ok::<(FlowView, MachineView), Stop>(
                (FlowView::Normal(ValueView::Unit), mid),
            ),
            ElseBranch::Block(b) => stmt_of(cx, fuel, Stmt::If(i), m) == block_flow_of(
                cx,
                (fuel - 2) as nat,
                b,
                false,
                mid,
            ),
            ElseBranch::If(j) => stmt_of(cx, fuel, Stmt::If(i), m) == stmt_of(
                cx,
                (fuel - 1) as nat,
                Stmt::If(*j),
                mid,
            ),
        },
{
}

proof fn lemma_inner(s: Seq<crate::machine::ScopeValues>, name: Seq<char>)
    ensures
        match inner_scope(s, name) {
            Some(i) => 0 <= i < s.len() && s[i].dom().contains(name) && forall|j: int|
                i < j < s.len() ==> !(#[trigger] s[j]).dom().contains(name),
            None => forall|j: int| 0 <= j < s.len() ==> !(#[trigger] s[j]).dom().contains(name),
        },
    decreases s.len(),
{
    if s.len() > 0 && !s.last().dom().contains(name) {
        lemma_inner(s.drop_last(), name);
        let d = s.drop_last();
        match inner_scope(s, name) {
            Some(i) => {
                assert(d[i] == s[i]);
                assert forall|j: int| i < j < s.len() implies !(#[trigger] s[j]).dom().contains(name) by {
                    if j < d.len() {
                        assert(d[j] == s[j]);
                    }
                }
            },
            None => {
                assert forall|j: int| 0 <= j < s.len() implies !(#[trigger] s[j]).dom().contains(name) by {
                    if j < d.len() {
                        assert(d[j] == s[j]);
                    }
                }
            },
        }
    }
}

/// Setting a name in the scope where it is found, or in the innermost one, gives the
/// name that value and leaves every other name alone.
proof fn lemma_set_in(m: MachineView, i: int, name: Seq<char>, v: ValueView, other: Seq<char>)
    requires
        0 <= i < m.scopes.len(),
        i == m.scopes.len() - 1 || inner_scope(m.scopes, name) == Some(i),
    ensures
        local(set_in(m, i, name, v), name) == Some(v),
        other != name ==> local(set_in(m, i, name, v), other) == local(m, other),
{
    let t = set_in(m, i, name, v).scopes;
    lemma_inner(m.scopes, name);
    lemma_inner(t, name);
    lemma_inner(m.scopes, other);
    lemma_inner(t, other);
    assert(t[i].dom().contains(name));
    match inner_scope(t, name) {
        Some(j) => {
            if j > i {
                assert(t[j] == m.scopes[j]);
            }
        },
        None => {},
    }
    if other != name {
        match (inner_scope(t, other), inner_scope(m.scopes, other)) {
            (Some(j), Some(k)) => {
                assert(m.scopes[j].dom().contains(other));
                assert(t[k].dom().contains(other));
                assert(j == k);
            },
            (Some(j), None) => {
                assert(m.scopes[j].dom().contains(other));
            },
            (None, Some(k)) => {
                assert(t[k].dom().contains(other));
            },
            (None, None) => {},
        }
    }
}

/// A `let` gives its name the value of its expression, and leaves every other name as
/// the evaluation of the expression left it.
pub proof fn a_let_binds_its_name(
    cx: Setting,
    fuel: nat,
    s: Stmt,
    m: MachineView,
    v: ValueView,
    mid: MachineView,
    other: Seq<char>,
)
    requires
        fuel > 0,
        s matches Stmt::Let { name, ty, value, span } && eval_of(cx, (fuel - 1) as nat, value, m) == Ok::<
            (ValueView, MachineView),
            Stop,
        >((v, mid)),
        mid.scopes.len() > 0,
    ensures
        stmt_of(cx, fuel, s, m) matches Ok(p) && {
            &&& p.0 == FlowView::Normal(ValueView::Unit)
            &&& p.1.scopes.len() == mid.scopes.len()
            &&& s matches Stmt::Let { name, ty, value, span } ==> local(p.1, name@) == Some(v) && (other != name@
                ==> local(p.1, other) == local(mid, other))
        },
{
    match s {
        Stmt::Let { name, ty, value, span } => {
            lemma_set_in(mid, mid.scopes.len() - 1, name@, v, other);
        },
        _ => {},
    }
}

/// An assignment to a local gives its name the value of its expression, in the scope
/// that holds it, and leaves every other name as the evaluation of the expression left
/// it.
pub proof fn an_assignment_sets_its_name(
    cx: Setting,
    fuel: nat,
    target: Expr,
    name: String,
    value: Expr,
    span: Span,
    m: MachineView,
    v: ValueView,
    mid: MachineView,
    other: Seq<char>,
)
    requires
        fuel >= 2,
        target.kind == ExprKind::Ident(name),
        eval_of(cx, (fuel - 1) as nat, value, m) == Ok::<(ValueView, MachineView), Stop>((v, mid)),
        local(mid, name@) is Some,
    ensures
        stmt_of(cx, fuel, (Stmt::Assign { target, value, span }), m) matches Ok(p) && {
            &&& p.0 == FlowView::Normal(ValueView::Unit)
            &&& p.1.scopes.len() == mid.scopes.len()
            &&& inner_scope(p.1.scopes, name@) == inner_scope(mid.scopes, name@)
            &&& local(p.1, name@) == Some(v)
            &&& other != name@ ==> local(p.1, other) == local(mid, other)
        },
{
    let i = inner_scope(mid.scopes, name@)->0;
    lemma_inner(mid.scopes, name@);
    lemma_set_in(mid, i, name@, v, other);
    let t = set_in(mid, i, name@, v).scopes;
    lemma_inner(t, name@);
    assert(t[i].dom().contains(name@));
    let j = inner_scope(t, name@)->0;
    if j > i {
        assert(t[j] == mid.scopes[j]);
    }
    assert(assign_of(cx, (fuel - 1) as nat, target, v, mid) == Ok::<((), MachineView), Stop>(
        ((), set_in(mid, i, name@, v)),
    ));
}

/// A local is read as what it was last set to, and reading it changes nothing.
pub proof fn a_local_is_read_as_it_was_set(cx: Setting, fuel: nat, e: Expr, name: String, m: MachineView)
    requires
        fuel >= 2,
        e.kind == ExprKind::Ident(name),
        local(m, name@) is Some,
    ensures
        eval_of(cx, fuel, e, m) == Ok::<(ValueView, MachineView), Stop>((local(m, name@)->0, m)),
{
    assert(lookup_of(cx, (fuel - 1) as nat, name@, e.span, m) == Ok::<(ValueView, MachineView), Stop>(
        (local(m, name@)->0, m),
    ));
}

/// What is bound in a scope hides what is outside only until the scope is closed.
pub proof fn a_scope_hides_nothing_once_closed(m: MachineView, name: Seq<char>, v: ValueView, other: Seq<char>)
    ensures
        closed(with_local(opened(m), name, v)) == m,
        local(with_local(opened(m), name, v), name) == Some(v),
        other != name ==> local(with_local(opened(m), name, v), other) == local(m, other),
{
    let o = opened(m);
    assert(closed(with_local(o, name, v)).scopes =~= m.scopes);
    lemma_set_in(o, o.scopes.len() - 1, name, v, other);
    assert(o.scopes.drop_last() =~= m.scopes);
    assert(!o.scopes.last().dom().contains(other));
    lemma_inner(m.scopes, other);
}

/// Expressions in a row are evaluated from the first to the last, each once and on the
/// machine that the one before left, and give their values in that order; the first
/// failure is that of the row.
pub proof fn expressions_are_evaluated_in_order(
    cx: Setting,
    fuel: nat,
    s: Seq<Expr>,
    vs: Seq<ValueView>,
    ms: Seq<MachineView>,
)
    requires
        fuel > 0,
        vs.len() <= s.len(),
        ms.len() == vs.len() + 1,
        forall|k: int|
            0 <= k < vs.len() ==> eval_of(cx, (fuel - 1) as nat, #[trigger] s[k], ms[k]) == Ok::<
                (ValueView, MachineView),
                Stop,
            >((vs[k], ms[k + 1])),
    ensures
        vs.len() == s.len() ==> evals_of(cx, fuel, s, 0, seq![], ms[0]) == Ok::<(Seq<ValueView>, MachineView), Stop>(
            (vs, ms.last()),
        ),
        vs.len() < s.len() ==> (eval_of(cx, (fuel - 1) as nat, s[vs.len() as int], ms.last()) matches Err(x)
            ==> evals_of(cx, fuel, s, 0, seq![], ms[0]) == Err::<(Seq<ValueView>, MachineView), Stop>(x)),
{
    assert(vs.take(0) =~= seq![]);
    lemma_evals(cx, fuel, s, vs, ms, 0);
}

proof fn lemma_evals(cx: Setting, fuel: nat, s: Seq<Expr>, vs: Seq<ValueView>, ms: Seq<MachineView>, i: nat)
    requires
        fuel > 0,
        i <= vs.len() <= s.len(),
        ms.len() == vs.len() + 1,
        forall|k: int|
            0 <= k < vs.len() ==> eval_of(cx, (fuel - 1) as nat, #[trigger] s[k], ms[k]) == Ok::<
                (ValueView, MachineView),
                Stop,
            >((vs[k], ms[k + 1])),
    ensures
        vs.len() == s.len() ==> evals_of(cx, fuel, s, i, vs.take(i as int), ms[i as int]) == Ok::<
            (Seq<ValueView>, MachineView),
            Stop,
        >((vs, ms.last())),
        vs.len() < s.len() ==> (eval_of(cx, (fuel - 1) as nat, s[vs.len() as int], ms.last()) matches Err(x)
            ==> evals_of(cx, fuel, s, i, vs.take(i as int), ms[i as int]) == Err::<(Seq<ValueView>, MachineView), Stop>(
            x,
        )),
    decreases vs.len() - i,
{
    if i < vs.len() {
        assert(eval_of(cx, (fuel - 1) as nat, s[i as int], ms[i as int]) is Ok);
        assert(vs.take(i as int).push(vs[i as int]) =~= vs.take(i as int + 1));
        lemma_evals(cx, fuel, s, vs, ms, i + 1);
    } else {
        assert(vs.take(i as int) =~= vs);
    }
}

proof fn lemma_par(
    cx: Setting,
    fuel: nat,
    var: Seq<char>,
    src: Seq<ValueView>,
    out: Seq<ValueView>,
    res: Seq<ValueView>,
    body: Block,
    ms: Seq<MachineView>,
    i: nat,
    cur: Seq<ValueView>,
)
    requires
        fuel > 0,
        i <= src.len(),
        out.len() == src.len() == res.len() == cur.len(),
        ms.len() == src.len() + 1,
        forall|k: int|
            0 <= k < src.len() ==> fills(
                round_of(cx, (fuel - 1) as nat, var, #[trigger] src[k], body, ms[k]),
                ms[k + 1],
                out[k],
                res[k],
            ),
        forall|k: int| 0 <= k < i ==> #[trigger] cur[k] == res[k],
        forall|k: int| i <= k < src.len() ==> #[trigger] cur[k] == out[k],
    ensures
        par_each_of(cx, fuel, var, src, i, cur, body, ms[i as int]) == Ok::<
            (Result<ValueView, Seq<ValueView>>, MachineView),
            Stop,
        >((Err(res), ms.last())),
    decreases src.len() - i,
{
    if i < src.len() {
        assert(fills(
            round_of(cx, (fuel - 1) as nat, var, src[i as int], body, ms[i as int]),
            ms[i as int + 1],
            out[i as int],
            res[i as int],
        ));
        let next = match round_of(cx, (fuel - 1) as nat, var, src[i as int], body, ms[i as int]) {
            Ok((FlowView::Normal(v), _)) => cur.update(i as int, v),
            _ => cur,
        };
        lemma_par(cx, fuel, var, src, out, res, body, ms, i + 1, next);
    } else {
        assert(cur =~= res);
    }
}

/// Whether a round of a filling loop goes on, and what it leaves in its slot: its value,
/// or what was there if it ends with `continue`.
pub open spec fn fills(r: Ran<FlowView>, after: MachineView, old_value: ValueView, new_value: ValueView) -> bool {
    match r {
        Ok((FlowView::Normal(v), m)) => m == after && new_value == v,
        Ok((FlowView::Continue, m)) => m == after && new_value == old_value,
        _ => false,
    }
}

/// A filling loop runs its body once for each element of its source, in order, and puts
/// the value of each round in the slot of the element's place; a round that ends with
/// `continue` leaves its slot as it was.
pub proof fn a_filling_loop_fills_every_slot(
    cx: Setting,
    fuel: nat,
    var: Seq<char>,
    src: Seq<ValueView>,
    out: Seq<ValueView>,
    res: Seq<ValueView>,
    body: Block,
    ms: Seq<MachineView>,
)
    requires
        fuel > 0,
        out.len() == src.len() == res.len(),
        ms.len() == src.len() + 1,
        forall|k: int|
            0 <= k < src.len() ==> fills(
                round_of(cx, (fuel - 1) as nat, var, #[trigger] src[k], body, ms[k]),
                ms[k + 1],
                out[k],
                res[k],
            ),
    ensures
        par_each_of(cx, fuel, var, src, 0, out, body, ms[0]) == Ok::<
            (Result<ValueView, Seq<ValueView>>, MachineView),
            Stop,
        >((Err(res), ms.last())),
{
    lemma_par(cx, fuel, var, src, out, res, body, ms, 0, out);
}

proof fn lemma_comp(
    cx: Setting,
    fuel: nat,
    e: Expr,
    clauses: Seq<CompClause>,
    mapper: Expr,
    var: Seq<char>,
    s: Seq<ValueView>,
    vs: Seq<ValueView>,
    ms: Seq<MachineView>,
    xs: Seq<MachineView>,
    j: nat,
)
    requires
        fuel >= 4,
        clauses.len() == 1,
        e.kind matches ExprKind::ListComp { mapper: mp, clauses: cs } && *mp == mapper,
        j <= s.len(),
        vs.len() == s.len() == xs.len(),
        ms.len() == s.len() + 1,
        forall|k: int|
            0 <= k < s.len() ==> eval_of(cx, (fuel - 3) as nat, mapper, with_local(opened(ms[k]), var, #[trigger] s[k]))
                == Ok::<(ValueView, MachineView), Stop>((vs[k], xs[k])),
        forall|k: int| 0 <= k < s.len() ==> closed(#[trigger] xs[k]) == ms[k + 1],
    ensures
        comp_each_of(cx, fuel, e, clauses, 0, var, s, j, ValueView::Array(vs.take(j as int)), ms[j as int]) == Ok::<
            (ValueView, MachineView),
            Stop,
        >((ValueView::Array(vs), ms.last())),
    decreases s.len() - j,
{
    if j < s.len() {
        let at = with_local(opened(ms[j as int]), var, s[j as int]);
        assert(eval_of(cx, (fuel - 3) as nat, mapper, at) is Ok);
        let acc = ValueView::Array(vs.take(j as int));
        assert(vs.take(j as int).push(vs[j as int]) =~= vs.take(j as int + 1));
        assert(comp_item_of(cx, (fuel - 2) as nat, e, acc, at) == Ok::<(ValueView, MachineView), Stop>(
            (ValueView::Array(vs.take(j as int + 1)), xs[j as int]),
        ));
        assert(comp_of(cx, (fuel - 1) as nat, e, clauses, 1, acc, at) == comp_item_of(
            cx,
            (fuel - 2) as nat,
            e,
            acc,
            at,
        ));
        assert(closed(xs[j as int]) == ms[j as int + 1]);
        lemma_comp(cx, fuel, e, clauses, mapper, var, s, vs, ms, xs, j + 1);
    } else {
        assert(vs.take(j as int) =~= vs);
    }
}

/// A comprehension over one array gives an array of the same length: at every place what
/// its mapper gives for the element there, in order.
pub proof fn a_comprehension_maps_every_element(
    cx: Setting,
    fuel: nat,
    e: Expr,
    mapper: Expr,
    var: String,
    iter: Expr,
    m: MachineView,
    s: Seq<ValueView>,
    vs: Seq<ValueView>,
    ms: Seq<MachineView>,
    xs: Seq<MachineView>,
)
    requires
        fuel >= 6,
        e.kind matches ExprKind::ListComp { mapper: mp, clauses } && *mp == mapper && clauses@.len() == 1
            && clauses@[0] == (CompClause::For { var, iter }),
        iter_of(cx, (fuel - 2) as nat, iter, m) == Ok::<(ValueView, MachineView), Stop>((ValueView::Array(s), ms[0])),
        vs.len() == s.len() == xs.len(),
        ms.len() == s.len() + 1,
        forall|k: int|
            0 <= k < s.len() ==> eval_of(
                cx,
                (fuel - 5) as nat,
                mapper,
                with_local(opened(ms[k]), var@, #[trigger] s[k]),
            ) == Ok::<(ValueView, MachineView), Stop>((vs[k], xs[k])),
        forall|k: int| 0 <= k < s.len() ==> closed(#[trigger] xs[k]) == ms[k + 1],
    ensures
        eval_of(cx, fuel, e, m) == Ok::<(ValueView, MachineView), Stop>((ValueView::Array(vs), ms.last())),
{
    match e.kind {
        ExprKind::ListComp { mapper: mp, clauses } => {
            assert(vs.take(0) =~= seq![]);
            lemma_comp(cx, (fuel - 2) as nat, e, clauses@, mapper, var@, s, vs, ms, xs, 0);
            assert(comp_of(cx, (fuel - 1) as nat, e, clauses@, 0, ValueView::Array(seq![]), m) == Ok::<
                (ValueView, MachineView),
                Stop,
            >((ValueView::Array(vs), ms.last())));
        },
        _ => {},
    }
}

/// A filter of a comprehension lets through what makes it true, and drops what makes it
/// false.
pub proof fn a_filter_passes_what_is_true(
    cx: Setting,
    fuel: nat,
    e: Expr,
    clauses: Seq<CompClause>,
    i: nat,
    cond: Expr,
    acc: ValueView,
    m: MachineView,
    mid: MachineView,
)
    requires
        fuel > 0,
        i < clauses.len(),
        clauses[i as int] == CompClause::If(cond),
    ensures
        eval_of(cx, (fuel - 1) as nat, cond, m) == Ok::<(ValueView, MachineView), Stop>((ValueView::Bool(true), mid))
            ==> comp_of(cx, fuel, e, clauses, i, acc, m) == comp_of(cx, (fuel - 1) as nat, e, clauses, i + 1, acc, mid),
        eval_of(cx, (fuel - 1) as nat, cond, m) == Ok::<(ValueView, MachineView), Stop>((ValueView::Bool(false), mid))
            ==> comp_of(cx, fuel, e, clauses, i, acc, m) == Ok::<(ValueView, MachineView), Stop>((acc, mid)),
{
}

proof fn lemma_params(m: MachineView, params: Seq<Param>, vs: Seq<ValueView>, n: nat, i: int)
    requires
        n <= params.len() == vs.len(),
        m.scopes.len() == 1,
        0 <= i < n,
        forall|a: int, c: int| 0 <= a < c < params.len() ==> #[trigger] params[a].name@ != #[trigger] params[c].name@,
    ensures
        with_params(m, params, vs, n).scopes.len() == 1,
        local(with_params(m, params, vs, n), params[i].name@) == Some(vs[i]),
    decreases n,
{
    lemma_params_scopes(m, params, vs, (n - 1) as nat);
    let b = with_params(m, params, vs, (n - 1) as nat);
    lemma_set_in(b, 0, params[n - 1].name@, vs[n - 1], params[i].name@);
    if i < n - 1 {
        lemma_params(m, params, vs, (n - 1) as nat, i);
        assert(params[i].name@ != params[n - 1].name@);
    }
}

proof fn lemma_params_scopes(m: MachineView, params: Seq<Param>, vs: Seq<ValueView>, n: nat)
    requires
        n <= params.len() == vs.len(),
        m.scopes.len() > 0,
    ensures
        with_params(m, params, vs, n).scopes.len() == m.scopes.len(),
    decreases n,
{
    if n > 0 {
        lemma_params_scopes(m, params, vs, (n - 1) as nat);
    }
}

/// In a function every parameter is the argument at its place, and after the call the
/// caller's locals are what they were.
pub proof fn a_call_binds_its_arguments(
    cx: Setting,
    m: MachineView,
    k: int,
    args: Seq<ValueView>,
    i: int,
    after: MachineView,
)
    requires
        0 <= k < cx.module.functions@.len(),
        args.len() == cx.module.functions@[k].params@.len(),
        0 <= i < args.len(),
        forall|a: int, c: int|
            0 <= a < c < args.len() ==> #[trigger] cx.module.functions@[k].params@[a].name@
                != #[trigger] cx.module.functions@[k].params@[c].name@,
    ensures
        local(inside(cx, m, k, args), cx.module.functions@[k].params@[i].name@) == Some(args[i]),
        after_call(cx, m, k, after).scopes == m.scopes,
{
    let f = cx.module.functions@[k];
    let start = MachineView {
        scopes: seq![Map::empty()],
        entered: if f.is_nore {
            m.entered.push(k as usize)
        } else {
            m.entered
        },
        ..m
    };
    lemma_params(start, f.params@, args, f.params@.len(), i);
}

/// A call gives what the body of its function returns, or the value of its tail.
pub proof fn a_call_gives_what_the_body_returns(
    cx: Setting,
    fuel: nat,
    k: int,
    args: Seq<ValueView>,
    m: MachineView,
    v: ValueView,
    after: MachineView,
)
    requires
        fuel > 0,
        0 <= k < cx.module.functions@.len(),
        args.len() == cx.module.functions@[k].params@.len(),
        !cx.module.functions@[k].is_nore,
        block_flow_of(cx, (fuel - 1) as nat, cx.module.functions@[k].body, true, inside(cx, m, k, args)) == Ok::<
            (FlowView, MachineView),
            Stop,
        >((FlowView::Return(v), after)),
    ensures
        fn_call_of(cx, fuel, k, args, m) matches Ok(p) && p.0 == v && p.1.scopes == m.scopes && p.1.used == after.used,
{
}

/// The arm of a match is the first one that takes the variant.
pub proof fn a_match_takes_the_first_arm(arms: Seq<MatchArm>, variant: Seq<char>, k: int)
    requires
        0 <= k < arms.len(),
        arms[k].pattern matches MatchPattern::EnumVariant { enum_name, variant: v, bindings } ==> v@ == variant,
        forall|j: int|
            0 <= j < k ==> ((#[trigger] arms[j]).pattern matches MatchPattern::EnumVariant {
                enum_name,
                variant: v,
                bindings,
            } && v@ != variant),
    ensures
        arm_at(arms, variant, 0) == Some(k),
{
    lemma_arm(arms, variant, k, 0);
}

proof fn lemma_arm(arms: Seq<MatchArm>, variant: Seq<char>, k: int, i: nat)
    requires
        i <= k < arms.len(),
        arms[k].pattern matches MatchPattern::EnumVariant { enum_name, variant: v, bindings } ==> v@ == variant,
        forall|j: int|
            0 <= j < k ==> ((#[trigger] arms[j]).pattern matches MatchPattern::EnumVariant {
                enum_name,
                variant: v,
                bindings,
            } && v@ != variant),
    ensures
        arm_at(arms, variant, i) == Some(k),
    decreases k - i,
{
    if i < k {
        assert(arms[i as int].pattern is EnumVariant);
        lemma_arm(arms, variant, k, i + 1);
    }
}

/// An index gives the element at its place, and fails outside of the array.
pub proof fn an_index_gives_its_element(s: Seq<ValueView>, i: int, span: Span)
    ensures
        0 <= i < s.len() ==> array_item(ValueView::Array(s), ValueView::Int(i), span) == Ok::<ValueView, ErrorView>(s[i]),
        !(0 <= i < s.len()) ==> array_item(ValueView::Array(s), ValueView::Int(i), span) is Err,
{
}

/// An operator has its left side evaluated first, then its right side on the machine
/// that this left, and gives what the operator makes of both values.
pub proof fn operands_are_evaluated_from_the_left(
    cx: Setting,
    fuel: nat,
    e: Expr,
    m: MachineView,
    l: ValueView,
    mid: MachineView,
    r: ValueView,
    after: MachineView,
    v: ValueView,
)
    requires
        fuel > 0,
        e.kind matches ExprKind::Binary { op, lhs, rhs } && eval_of(cx, (fuel - 1) as nat, *lhs, m) == Ok::<
            (ValueView, MachineView),
            Stop,
        >((l, mid)) && eval_of(cx, (fuel - 1) as nat, *rhs, mid) == Ok::<(ValueView, MachineView), Stop>((r, after))
            && crate::ops::binary(op, l, r, e.span) == Ok::<ValueView, ErrorView>(v),
    ensures
        eval_of(cx, fuel, e, m) == Ok::<(ValueView, MachineView), Stop>((v, after)),
{
}

} // verus!
