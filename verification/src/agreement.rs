//! Compiled expressions give what they say: run on a machine that follows the meaning of
//! the plain instructions, the code of an expression leaves the value of the expression
//! in its register.

use vstd::prelude::*;
use crate::ast::{Expr, ExprKind};
use crate::bc::{ConstView, Instr};
use crate::builder::{BuilderView, ScopeRegs, local_reg};
use crate::codegen::{UnitView, binary_into, expr_into, ident_into};
use crate::error::ErrorView;
use crate::interp::{eval_of, lookup_of};
use crate::layout::{extends, lemma_const};
use crate::machine::{MachineView, ScopeValues, Setting, Stop, inner_scope};
use crate::meaning::{
    Loaded, Spot, const_value, follows, lemma_anywhere, lemma_anywhere_unary, lemma_go_on, lemma_step, reaches,
};
use crate::tables::{lemma_first_place, lemma_place, place};
use crate::value::ValueView;

verus! {

/// Whether a name can only be that of a local: no state and no constant has it.
pub open spec fn local_only(cx: UnitView, name: Seq<char>) -> bool {
    place(cx.module.states@, name) is None && place(cx.module.consts@, name) is None
}

/// Whether an expression is made of literals, locals and operators.
pub open spec fn plain_expr(cx: UnitView, e: Expr) -> bool
    decreases e,
{
    match e.kind {
        ExprKind::Int(_) => true,
        ExprKind::UInt(_) => true,
        ExprKind::I32(_) => true,
        ExprKind::U32(_) => true,
        ExprKind::U64(_) => true,
        ExprKind::U128(_) => true,
        ExprKind::Bool(_) => true,
        ExprKind::Str(_) => true,
        ExprKind::Ident(name) => local_only(cx, name@),
        ExprKind::Binary { op, lhs, rhs } => plain_expr(cx, *lhs) && plain_expr(cx, *rhs),
        ExprKind::Unary { op, operand } => plain_expr(cx, *operand),
        _ => false,
    }
}

/// Whether the registers of the locals are all different and below the next free one.
pub open spec fn tidy(s: Seq<ScopeRegs>, next: u16) -> bool {
    &&& forall|i: int, x: Seq<char>| 0 <= i < s.len() && #[trigger] s[i].contains_key(x) ==> s[i][x] < next
    &&& forall|i: int, x: Seq<char>, j: int, y: Seq<char>|
        0 <= i < s.len() && 0 <= j < s.len() && #[trigger] s[i].contains_key(x) && #[trigger] s[j].contains_key(y)
            && s[i][x] == s[j][y] ==> i == j && x == y
}

/// What the compilation of a plain expression leaves alone.
proof fn lemma_expr_frame(cx: UnitView, d: nat, e: Expr, dst: u16, b: BuilderView, b1: BuilderView)
    requires
        plain_expr(cx, e),
        expr_into(cx, d, e, dst, b) == Ok::<BuilderView, ErrorView>(b1),
    ensures
        extends(b.code, b1.code),
        extends(b.consts, b1.consts),
        b1.next == b.next,
        b1.scopes == b.scopes,
        b1.loops == b.loops,
    decreases e,
{
    match e.kind {
        ExprKind::Binary { op, lhs, rhs } => {
            assert(binary_into(cx, d, e, dst, b) == Ok::<BuilderView, ErrorView>(b1));
            let c = expr_into(cx, d, *lhs, dst, b)->Ok_0;
            lemma_expr_frame(cx, d, *lhs, dst, b, c);
            let (r, c1) = crate::builder::allocated(c, 1, cx.func.name@, cx.func.span)->Ok_0;
            let c2 = expr_into(cx, d, *rhs, r, c1)->Ok_0;
            lemma_expr_frame(cx, d, *rhs, r, c1, c2);
            assert forall|i: int| 0 <= i < b.code.len() implies #[trigger] b1.code[i] == b.code[i] by {
                assert(c.code[i] == b.code[i]);
                assert(c2.code[i] == c1.code[i]);
            }
            assert forall|i: int| 0 <= i < b.consts.len() implies #[trigger] b1.consts[i] == b.consts[i] by {
                assert(c.consts[i] == b.consts[i]);
                assert(c2.consts[i] == c1.consts[i]);
            }
        },
        ExprKind::Unary { op, operand } => {
            let c = expr_into(cx, d, *operand, dst, b)->Ok_0;
            lemma_expr_frame(cx, d, *operand, dst, b, c);
            assert forall|i: int| 0 <= i < b.code.len() implies #[trigger] b1.code[i] == b.code[i] by {
                assert(c.code[i] == b.code[i]);
            }
        },
        ExprKind::Ident(name) => {
            assert(ident_into(cx, d, e, name@, dst, b) == Ok::<BuilderView, ErrorView>(b1));
        },
        _ => {},
    }
}

/// Whether the registers hold what the locals of a run are.
pub open spec fn stands(s: Seq<ScopeRegs>, m: Seq<ScopeValues>, regs: Map<u16, ValueView>) -> bool {
    &&& s.len() == m.len()
    &&& forall|i: int, x: Seq<char>|
        0 <= i < s.len() ==> #[trigger] s[i].contains_key(x) == m[i].contains_key(x)
    &&& forall|i: int, x: Seq<char>| 0 <= i < s.len() && #[trigger] s[i].contains_key(x) ==> regs[s[i][x]] == m[i][x]
}

/// Whether no local has a register.
pub open spec fn spare(s: Seq<ScopeRegs>, r: u16) -> bool {
    forall|i: int, x: Seq<char>| 0 <= i < s.len() && #[trigger] s[i].contains_key(x) ==> s[i][x] != r
}

/// Whether registers below a number, except one, are as they were.
pub open spec fn same_below(regs: Map<u16, ValueView>, after: Map<u16, ValueView>, next: u16, but: u16) -> bool {
    forall|r: u16| r < next && r != but ==> #[trigger] after[r] == regs[r]
}

/// Whether code holds what was laid out between two steps of compilation.
pub open spec fn laid(code: Seq<Instr>, b: BuilderView, b1: BuilderView) -> bool {
    &&& b1.code.len() <= code.len()
    &&& forall|i: int| b.code.len() <= i < b1.code.len() ==> #[trigger] code[i] == b1.code[i]
}

/// Whether the constants of a step of compilation are those of the loaded code.
pub open spec fn pooled<W>(p: Loaded<W>, b: BuilderView) -> bool {
    extends(b.consts, p.consts) && p.consts.len() <= 0x1_0000
}

proof fn lemma_local_reg(s: Seq<ScopeRegs>, m: Seq<ScopeValues>, x: Seq<char>)
    requires
        s.len() == m.len(),
        forall|i: int, x: Seq<char>|
            0 <= i < s.len() ==> #[trigger] s[i].contains_key(x) == m[i].contains_key(x),
    ensures
        match inner_scope(m, x) {
            Some(i) => 0 <= i < s.len() && s[i].contains_key(x) && m[i].contains_key(x) && local_reg(s, x) == Some(s[i][x]),
            None => local_reg(s, x) is None,
        },
    decreases s.len(),
{
    if s.len() > 0 {
        let d = s.drop_last();
        let e = m.drop_last();
        assert(s.last().contains_key(x) == m.last().contains_key(x)) by {
            assert(s[s.len() - 1].contains_key(x) == m[s.len() - 1].contains_key(x));
        }
        if !m.last().contains_key(x) {
            assert forall|i: int, y: Seq<char>|
                0 <= i < d.len() implies #[trigger] d[i].contains_key(y) == e[i].contains_key(y) by {
                assert(s[i].contains_key(y) == m[i].contains_key(y));
            }
            lemma_local_reg(d, e, x);
        }
    }
}

/// A literal is loaded from the pool.
proof fn lemma_literal<W>(
    p: Loaded<W>,
    c: ConstView,
    dst: u16,
    b: BuilderView,
    b1: BuilderView,
    regs: Map<u16, ValueView>,
    w: W,
)
    requires
        follows(p),
        !(c is Float),
        b1 == crate::builder::emitted(
            crate::builder::with_const(b, c),
            Instr::LoadConst { dst, idx: crate::builder::const_index(b, c) },
        ),
        laid(p.code, b, b1),
        pooled(p, b1),
    ensures
        reaches(
            p,
            (Spot { pc: b.code.len() as int, regs, world: w }),
            (Spot { pc: b1.code.len() as int, regs: regs.insert(dst, const_value(c)), world: w }),
        ),
{
    lemma_const(b, c);
    let idx = crate::builder::const_index(b, c);
    assert(p.consts[idx as int] == b1.consts[idx as int]);
    let at = Spot { pc: b.code.len() as int, regs, world: w };
    assert(p.code[at.pc] == b1.code[at.pc]);
    lemma_step(p, at, p.code[at.pc]);
}

/// The code of a plain expression leaves its value in the register it is made for, and
/// every other register in use as it was.
#[verifier::rlimit(100)]
proof fn lemma_expr<W>(
    p: Loaded<W>,
    cx: UnitView,
    d: nat,
    e: Expr,
    dst: u16,
    b: BuilderView,
    b1: BuilderView,
    set: Setting,
    fuel: nat,
    m: MachineView,
    v: ValueView,
    m1: MachineView,
    regs: Map<u16, ValueView>,
    w: W,
) -> (after: Map<u16, ValueView>)
    requires
        follows(p),
        *set.module == cx.module,
        plain_expr(cx, e),
        expr_into(cx, d, e, dst, b) == Ok::<BuilderView, ErrorView>(b1),
        laid(p.code, b, b1),
        pooled(p, b1),
        tidy(b.scopes, b.next),
        stands(b.scopes, m.scopes, regs),
        dst < b.next,
        spare(b.scopes, dst),
        eval_of(set, fuel, e, m) == Ok::<(ValueView, MachineView), Stop>((v, m1)),
    ensures
        m1 == m,
        after[dst] == v,
        same_below(regs, after, b.next, dst),
        reaches(
            p,
            (Spot { pc: b.code.len() as int, regs, world: w }),
            (Spot { pc: b1.code.len() as int, regs: after, world: w }),
        ),
    decreases e,
{
    let at = Spot { pc: b.code.len() as int, regs, world: w };
    match e.kind {
        ExprKind::Int(n) => {
            lemma_literal(p, ConstView::Int(n@), dst, b, b1, regs, w);
            regs.insert(dst, v)
        },
        ExprKind::UInt(n) => {
            lemma_literal(p, ConstView::UInt(n@), dst, b, b1, regs, w);
            regs.insert(dst, v)
        },
        ExprKind::I32(n) => {
            lemma_literal(p, ConstView::I32(n), dst, b, b1, regs, w);
            regs.insert(dst, v)
        },
        ExprKind::U32(n) => {
            lemma_literal(p, ConstView::U32(n), dst, b, b1, regs, w);
            regs.insert(dst, v)
        },
        ExprKind::U64(n) => {
            lemma_literal(p, ConstView::U64(n), dst, b, b1, regs, w);
            regs.insert(dst, v)
        },
        ExprKind::U128(n) => {
            lemma_literal(p, ConstView::U128(n), dst, b, b1, regs, w);
            regs.insert(dst, v)
        },
        ExprKind::Bool(n) => {
            lemma_literal(p, ConstView::Bool(n), dst, b, b1, regs, w);
            regs.insert(dst, v)
        },
        ExprKind::Str(s) => {
            lemma_literal(p, ConstView::Str(s@), dst, b, b1, regs, w);
            regs.insert(dst, v)
        },
        ExprKind::Ident(name) => {
            lemma_ident(p, cx, d, e, name@, dst, b, b1, set, fuel, m, v, m1, regs, w);
            regs.insert(dst, v)
        },
        ExprKind::Binary { op, lhs, rhs } => {
            let f = (fuel - 1) as nat;
            assert(binary_into(cx, d, e, dst, b) == Ok::<BuilderView, ErrorView>(b1));
            let c = expr_into(cx, d, *lhs, dst, b)->Ok_0;
            let (r, c1) = crate::builder::allocated(c, 1, cx.func.name@, cx.func.span)->Ok_0;
            let c2 = expr_into(cx, d, *rhs, r, c1)->Ok_0;
            lemma_expr_frame(cx, d, *lhs, dst, b, c);
            lemma_expr_frame(cx, d, *rhs, r, c1, c2);
            let (lv, ml) = eval_of(set, f, *lhs, m)->Ok_0;
            let (rv, mr) = eval_of(set, f, *rhs, ml)->Ok_0;
            assert(laid(p.code, b, c)) by {
                assert forall|i: int| b.code.len() <= i < c.code.len() implies #[trigger] p.code[i] == c.code[i] by {
                    assert(c2.code[i] == c.code[i]);
                    assert(b1.code[i] == c2.code[i]);
                }
            }
            assert(pooled(p, c)) by {
                assert forall|i: int| 0 <= i < c.consts.len() implies #[trigger] p.consts[i] == c.consts[i] by {
                    assert(c2.consts[i] == c.consts[i]);
                }
            }
            let r1 = lemma_expr(p, cx, d, *lhs, dst, b, c, set, f, m, lv, ml, regs, w);
            assert(laid(p.code, c1, c2)) by {
                assert forall|i: int| c1.code.len() <= i < c2.code.len() implies #[trigger] p.code[i] == c2.code[i] by {
                    assert(b1.code[i] == c2.code[i]);
                }
            }
            assert(stands(c1.scopes, ml.scopes, r1));
            let r2 = lemma_expr(p, cx, d, *rhs, r, c1, c2, set, f, ml, rv, mr, r1, w);
            assert(r2[dst] == r1[dst]);
            lemma_anywhere(op, lv, rv, e.span);
            let mid = Spot { pc: c.code.len() as int, regs: r1, world: w };
            let last = Spot { pc: c2.code.len() as int, regs: r2, world: w };
            lemma_go_on(p, at, mid, last);
            assert(p.code[last.pc] == b1.code[last.pc]);
            lemma_step(p, last, p.code[last.pc]);
            let after = r2.insert(dst, v);
            lemma_go_on(p, at, last, Spot { pc: b1.code.len() as int, regs: after, world: w });
            assert forall|x: u16| x < b.next && x != dst implies #[trigger] after[x] == regs[x] by {
                assert(r2[x] == r1[x]);
                assert(r1[x] == regs[x]);
            }
            after
        },
        ExprKind::Unary { op, operand } => {
            let f = (fuel - 1) as nat;
            let c = expr_into(cx, d, *operand, dst, b)->Ok_0;
            lemma_expr_frame(cx, d, *operand, dst, b, c);
            let (x, mx) = eval_of(set, f, *operand, m)->Ok_0;
            assert(laid(p.code, b, c)) by {
                assert forall|i: int| b.code.len() <= i < c.code.len() implies #[trigger] p.code[i] == c.code[i] by {
                    assert(b1.code[i] == c.code[i]);
                }
            }
            let r1 = lemma_expr(p, cx, d, *operand, dst, b, c, set, f, m, x, mx, regs, w);
            lemma_anywhere_unary(op, x, e.span);
            let mid = Spot { pc: c.code.len() as int, regs: r1, world: w };
            assert(p.code[mid.pc] == b1.code[mid.pc]);
            lemma_step(p, mid, p.code[mid.pc]);
            let after = r1.insert(dst, v);
            lemma_go_on(p, at, mid, Spot { pc: b1.code.len() as int, regs: after, world: w });
            after
        },
        _ => regs,
    }
}

/// A local is moved from its register.
proof fn lemma_ident<W>(
    p: Loaded<W>,
    cx: UnitView,
    d: nat,
    e: Expr,
    name: Seq<char>,
    dst: u16,
    b: BuilderView,
    b1: BuilderView,
    set: Setting,
    fuel: nat,
    m: MachineView,
    v: ValueView,
    m1: MachineView,
    regs: Map<u16, ValueView>,
    w: W,
)
    requires
        follows(p),
        *set.module == cx.module,
        e.kind matches ExprKind::Ident(n) && n@ == name,
        local_only(cx, name),
        expr_into(cx, d, e, dst, b) == Ok::<BuilderView, ErrorView>(b1),
        laid(p.code, b, b1),
        stands(b.scopes, m.scopes, regs),
        spare(b.scopes, dst),
        eval_of(set, fuel, e, m) == Ok::<(ValueView, MachineView), Stop>((v, m1)),
    ensures
        m1 == m,
        reaches(
            p,
            (Spot { pc: b.code.len() as int, regs, world: w }),
            (Spot { pc: b1.code.len() as int, regs: regs.insert(dst, v), world: w }),
        ),
{
    assert(ident_into(cx, d, e, name, dst, b) == Ok::<BuilderView, ErrorView>(b1));
    assert(lookup_of(set, (fuel - 1) as nat, name, e.span, m) == Ok::<(ValueView, MachineView), Stop>((v, m1)));
    lemma_local_reg(b.scopes, m.scopes, name);
    lemma_place(cx.module.consts@, name);
    lemma_first_place(cx.module.consts@, name);
    match inner_scope(m.scopes, name) {
        Some(i) => {
            let at = Spot { pc: b.code.len() as int, regs, world: w };
            assert(p.code[at.pc] == b1.code[at.pc]);
            lemma_step(p, at, p.code[at.pc]);
        },
        None => {},
    }
}

/// The code of a plain expression does what the expression says. It is loaded with its
/// constants and run from its start, on registers that hold the locals of a machine. If
/// the evaluation of the expression on that machine gives a value, it leaves the machine
/// as it was, and the run comes to the end of the code with the value in the register
/// that the code is made for; every other register in use is as it was.
pub proof fn compiled_expressions_leave_their_value<W>(
    p: Loaded<W>,
    cx: UnitView,
    d: nat,
    e: Expr,
    dst: u16,
    b: BuilderView,
    b1: BuilderView,
    set: Setting,
    fuel: nat,
    m: MachineView,
    v: ValueView,
    m1: MachineView,
    regs: Map<u16, ValueView>,
    w: W,
)
    requires
        follows(p),
        *set.module == cx.module,
        plain_expr(cx, e),
        expr_into(cx, d, e, dst, b) == Ok::<BuilderView, ErrorView>(b1),
        laid(p.code, b, b1),
        pooled(p, b1),
        tidy(b.scopes, b.next),
        stands(b.scopes, m.scopes, regs),
        dst < b.next,
        spare(b.scopes, dst),
        eval_of(set, fuel, e, m) == Ok::<(ValueView, MachineView), Stop>((v, m1)),
    ensures
        m1 == m,
        exists|after: Map<u16, ValueView>|
            after[dst] == v && same_below(regs, after, b.next, dst) && #[trigger] reaches(
                p,
                (Spot { pc: b.code.len() as int, regs, world: w }),
                (Spot { pc: b1.code.len() as int, regs: after, world: w }),
            ),
{
    let after = lemma_expr(p, cx, d, e, dst, b, b1, set, fuel, m, v, m1, regs, w);
}

} // verus!
