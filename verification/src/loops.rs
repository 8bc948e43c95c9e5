//! What the code of a loop does around its body: on a machine that follows the meaning
//! of the plain instructions, how often the body runs and with what in its variable.

use vstd::prelude::*;
use crate::ast::BinOp;
use crate::bc::{ConstView, Instr};
use crate::builder::{BuilderView, LoopView, offset_to};
use crate::codegen::{LoopRegs, UnitView, array_head, array_tail, range_head, range_tail};
use crate::conduct::span_of;
use crate::error::ErrorView;
use crate::layout::{extends, lemma_const, lemma_patched_all, listed, settled, waiting};
use crate::meaning::{Loaded, Spot, follows, lemma_go_on, lemma_step, reaches, successor};
use crate::ops::kind;
use crate::reckoning::{alike, arithmetic_is_exact, comparisons_follow_the_integers, fits, number};
use crate::token::no_span;
use crate::value::ValueView;

verus! {

/// Whether code holds what a step of compilation has laid out from a place on.
pub open spec fn holds_from(code: Seq<Instr>, b: BuilderView, from: int) -> bool {
    &&& b.code.len() <= code.len() <= i32::MAX
    &&& forall|i: int| from <= i < b.code.len() ==> #[trigger] code[i] == b.code[i]
}

proof fn lemma_range_layout(
    cx: UnitView,
    counter: u16,
    limit: u16,
    inclusive: bool,
    var: Seq<char>,
    b: BuilderView,
    h: LoopRegs,
    b1: BuilderView,
    frame: LoopView,
    b2: BuilderView,
    code: Seq<Instr>,
)
    requires
        range_head(cx, counter, limit, inclusive, var, b) == Ok::<(LoopRegs, BuilderView), ErrorView>((h, b1)),
        extends(b1.code, b2.code),
        waiting(frame, b2.code, b1.code.len() as int, b2.code.len() as int),
        holds_from(code, range_tail(h, frame, b2), h.loop_start as int),
    ensures
        h.loop_start == b.code.len(),
        b1.code.len() == b.code.len() + 2,
        range_tail(h, frame, b2).code.len() == b2.code.len() + 2,
        code[h.loop_start as int] == (Instr::Bin {
            op: if inclusive {
                BinOp::LtEq
            } else {
                BinOp::Lt
            },
            dst: b.next,
            lhs: counter,
            rhs: limit,
        }),
        code[h.loop_start + 1] == (Instr::JumpIfFalse {
            cond: b.next,
            offset: offset_to((h.loop_start + 1) as nat, (b2.code.len() + 2) as nat),
        }),
        code[b2.code.len() as int] == (Instr::IncReg { reg: counter }),
        code[b2.code.len() as int + 1] == (Instr::Jump {
            offset: offset_to((b2.code.len() + 1) as nat, h.loop_start as nat),
        }),
        forall|i: int|
            b1.code.len() <= i < b2.code.len() ==> #[trigger] code[i] == settled(
                frame,
                b2.code,
                i,
                b2.code.len() + 2,
                b2.code.len(),
            ),
        forall|i: int| 0 <= i < h.loop_start ==> #[trigger] range_tail(h, frame, b2).code[i] == b2.code[i],
        range_tail(h, frame, b2) == (BuilderView {
            code: range_tail(h, frame, b2).code,
            scopes: b2.scopes.drop_last(),
            ..b2
        }),
{
    let q = b2.code.len();
    let t = range_tail(h, frame, b2);
    let c1 = crate::builder::patched_all(b2, frame.continues, frame.continues.len(), q);
    lemma_patched_all(b2, frame.continues, frame.continues.len(), q);
    assert(frame.continues.take(frame.continues.len() as int) =~= frame.continues);
    assert(frame.breaks.take(frame.breaks.len() as int) =~= frame.breaks);
    let c2 = crate::builder::emitted(c1, Instr::IncReg { reg: h.counter_reg });
    let c3 = crate::builder::patched(
        crate::builder::emitted(c2, Instr::Jump { offset: 0 }),
        c2.code.len(),
        h.loop_start as nat,
    );
    assert(c3.code.len() == q + 2);
    let c4 = crate::builder::patched(c3, h.exit as nat, (q + 2) as nat);
    lemma_patched_all(c4, frame.breaks, frame.breaks.len(), (q + 2) as nat);
    assert(t.code == crate::builder::patched_all(c4, frame.breaks, frame.breaks.len(), (q + 2) as nat).code);
    let ls = b.code.len() as int;
    assert forall|i: int| 0 <= i < ls implies #[trigger] t.code[i] == b2.code[i] by {
        assert(!listed(frame.breaks, i) && !listed(frame.continues, i));
        assert(c4.code[i] == c1.code[i]);
    }
    assert(t.code.len() == q + 2);
    assert(b1.code.len() == ls + 2);
    assert(b2.code.len() <= i32::MAX);
    assert(h.loop_start == ls);
    assert(h.exit == ls + 1);
    assert(b2.code[ls] == b1.code[ls]);
    assert(b2.code[ls + 1] == b1.code[ls + 1]);
    assert(!listed(frame.breaks, ls) && !listed(frame.breaks, ls + 1) && !listed(frame.breaks, q as int) && !listed(
        frame.breaks,
        q as int + 1,
    ));
    assert(!listed(frame.continues, ls) && !listed(frame.continues, ls + 1));
    assert(code[ls] == t.code[ls]);
    assert(code[ls + 1] == t.code[ls + 1]);
    assert(code[q as int] == t.code[q as int]);
    assert(code[q as int + 1] == t.code[q as int + 1]);
    assert forall|i: int| b1.code.len() <= i < q implies #[trigger] code[i] == settled(
        frame,
        b2.code,
        i,
        (q + 2) as nat,
        q,
    ) by {
        assert(code[i] == t.code[i]);
        assert(c4.code[i] == c1.code[i]);
    }
}

/// A value of a type, as an integer of it and the next one.
proof fn lemma_successor(v: ValueView)
    requires
        number(v) is Some,
        fits(number(v)->0 + 1, v),
        fits(number(v)->0, v),
    ensures
        successor(v) matches Some(x) && kind(x) == kind(v) && number(x) == Some(number(v)->0 + 1) && fits(
            number(x)->0,
            x,
        ),
{
}

/// The registers at the start of the rounds of a loop that counts: the counter goes up
/// by one between rounds, and the register of the test holds true.
pub open spec fn counts_up(
    ins: Seq<Map<u16, ValueView>>,
    outs: Seq<Map<u16, ValueView>>,
    regs: Map<u16, ValueView>,
    counter: u16,
    check: u16,
) -> bool {
    &&& ins.len() == outs.len()
    &&& ins.len() > 0 ==> ins[0] == regs.insert(check, ValueView::Bool(true))
    &&& forall|k: int|
        0 < k < ins.len() ==> #[trigger] ins[k] == outs[k - 1].insert(counter, successor(outs[k - 1][counter])->0).insert(
            check,
            ValueView::Bool(true),
        )
}

/// The code of a loop over a range runs its body once for each integer from the first
/// bound up to the second, in order, with the second itself if the range is inclusive.
/// The bounds are two numbers of one type in the registers of the counter and of the
/// limit. The body may be any code that comes to its end and leaves both registers as
/// they were; in its `k`-th round, the counter, which is the register of the loop's
/// variable, holds the first bound and `k` more. After the last round the run is behind
/// the loop.
pub proof fn the_code_of_a_range_loop_visits_every_integer<W>(
    p: Loaded<W>,
    cx: UnitView,
    counter: u16,
    limit: u16,
    inclusive: bool,
    var: Seq<char>,
    b: BuilderView,
    h: LoopRegs,
    b1: BuilderView,
    frame: LoopView,
    b2: BuilderView,
    regs: Map<u16, ValueView>,
    ins: Seq<Map<u16, ValueView>>,
    outs: Seq<Map<u16, ValueView>>,
    ws: Seq<W>,
)
    requires
        follows(p),
        range_head(cx, counter, limit, inclusive, var, b) == Ok::<(LoopRegs, BuilderView), ErrorView>((h, b1)),
        counter < b.next,
        limit < b.next,
        counter != limit,
        extends(b1.code, b2.code),
        waiting(frame, b2.code, b1.code.len() as int, b2.code.len() as int),
        holds_from(p.code, range_tail(h, frame, b2), h.loop_start as int),
        alike(regs[counter], regs[limit]),
        inclusive ==> fits(number(regs[limit])->0 + 1, regs[limit]),
        ins.len() == span_of(number(regs[counter])->0, number(regs[limit])->0, inclusive),
        counts_up(ins, outs, regs, counter, b.next),
        ws.len() == ins.len() + 1,
        forall|k: int|
            0 <= k < ins.len() ==> reaches(
                p,
                (Spot { pc: b1.code.len() as int, regs: #[trigger] ins[k], world: ws[k] }),
                (Spot { pc: b2.code.len() as int, regs: outs[k], world: ws[k + 1] }),
            ),
        forall|k: int|
            0 <= k < ins.len() ==> (#[trigger] outs[k])[counter] == ins[k][counter] && outs[k][limit] == ins[k][limit],
    ensures
        forall|k: int|
            0 <= k < ins.len() ==> kind(#[trigger] ins[k][counter]) == kind(regs[counter]) && number(ins[k][counter])
                == Some(number(regs[counter])->0 + k),
        exists|last: Map<u16, ValueView>|
            #[trigger] reaches(
                p,
                (Spot { pc: h.loop_start as int, regs, world: ws[0] }),
                (Spot { pc: range_tail(h, frame, b2).code.len() as int, regs: last, world: ws.last() }),
            ),
{
    lemma_range_layout(cx, counter, limit, inclusive, var, b, h, b1, frame, b2, p.code);
    let n = ins.len();
    let lo = number(regs[counter])->0;
    let hi = number(regs[limit])->0;
    let check = b.next;
    assert forall|k: int|
        0 <= k < n implies kind(#[trigger] ins[k][counter]) == kind(regs[counter]) && number(ins[k][counter]) == Some(
        lo + k,
    ) && ins[k][limit] == regs[limit] by {
        lemma_counted(ins, outs, regs, counter, limit, check, inclusive, k as nat);
    }
    lemma_range_rounds(p, counter, limit, inclusive, b, h, b1, b2, regs, ins, outs, ws, 0);
}

proof fn lemma_counted(
    ins: Seq<Map<u16, ValueView>>,
    outs: Seq<Map<u16, ValueView>>,
    regs: Map<u16, ValueView>,
    counter: u16,
    limit: u16,
    check: u16,
    inclusive: bool,
    k: nat,
)
    requires
        k < ins.len(),
        counter < check,
        limit < check,
        counter != limit,
        alike(regs[counter], regs[limit]),
        ins.len() == span_of(number(regs[counter])->0, number(regs[limit])->0, inclusive),
        counts_up(ins, outs, regs, counter, check),
        forall|k: int|
            0 <= k < ins.len() ==> (#[trigger] outs[k])[counter] == ins[k][counter] && outs[k][limit] == ins[k][limit],
    ensures
        kind(ins[k as int][counter]) == kind(regs[counter]),
        number(ins[k as int][counter]) == Some(number(regs[counter])->0 + k),
        ins[k as int][limit] == regs[limit],
    decreases k,
{
    if k > 0 {
        lemma_counted(ins, outs, regs, counter, limit, check, inclusive, (k - 1) as nat);
        let o = outs[k - 1];
        assert(o[counter] == ins[k - 1][counter]);
        assert(fits(number(o[counter])->0 + 1, o[counter]));
        lemma_successor(o[counter]);
        assert(ins[k as int] == o.insert(counter, successor(o[counter])->0).insert(check, ValueView::Bool(true)));
    }
}

/// The registers before the test of round `k`.
spec fn before(
    ins: Seq<Map<u16, ValueView>>,
    outs: Seq<Map<u16, ValueView>>,
    regs: Map<u16, ValueView>,
    counter: u16,
    k: nat,
) -> Map<u16, ValueView> {
    if k == 0 {
        regs
    } else {
        outs[k - 1].insert(counter, successor(outs[k - 1][counter])->0)
    }
}

#[verifier::rlimit(60)]
proof fn lemma_range_rounds<W>(
    p: Loaded<W>,
    counter: u16,
    limit: u16,
    inclusive: bool,
    b: BuilderView,
    h: LoopRegs,
    b1: BuilderView,
    b2: BuilderView,
    regs: Map<u16, ValueView>,
    ins: Seq<Map<u16, ValueView>>,
    outs: Seq<Map<u16, ValueView>>,
    ws: Seq<W>,
    k: nat,
)
    requires
        follows(p),
        k <= ins.len(),
        counter < b.next,
        limit < b.next,
        counter != limit,
        p.code.len() <= i32::MAX,
        b2.code.len() + 2 <= p.code.len(),
        h.loop_start + 2 == b1.code.len() <= b2.code.len(),
        p.code[h.loop_start as int] == (Instr::Bin {
            op: if inclusive {
                BinOp::LtEq
            } else {
                BinOp::Lt
            },
            dst: b.next,
            lhs: counter,
            rhs: limit,
        }),
        p.code[h.loop_start + 1] == (Instr::JumpIfFalse {
            cond: b.next,
            offset: offset_to((h.loop_start + 1) as nat, (b2.code.len() + 2) as nat),
        }),
        p.code[b2.code.len() as int] == (Instr::IncReg { reg: counter }),
        p.code[b2.code.len() as int + 1] == (Instr::Jump {
            offset: offset_to((b2.code.len() + 1) as nat, h.loop_start as nat),
        }),
        alike(regs[counter], regs[limit]),
        inclusive ==> fits(number(regs[limit])->0 + 1, regs[limit]),
        ins.len() == span_of(number(regs[counter])->0, number(regs[limit])->0, inclusive),
        counts_up(ins, outs, regs, counter, b.next),
        ws.len() == ins.len() + 1,
        forall|k: int|
            0 <= k < ins.len() ==> reaches(
                p,
                (Spot { pc: b1.code.len() as int, regs: #[trigger] ins[k], world: ws[k] }),
                (Spot { pc: b2.code.len() as int, regs: outs[k], world: ws[k + 1] }),
            ),
        forall|k: int|
            0 <= k < ins.len() ==> (#[trigger] outs[k])[counter] == ins[k][counter] && outs[k][limit] == ins[k][limit],
        forall|k: int|
            0 <= k < ins.len() ==> kind(#[trigger] ins[k][counter]) == kind(regs[counter]) && number(ins[k][counter])
                == Some(number(regs[counter])->0 + k) && ins[k][limit] == regs[limit],
    ensures
        exists|last: Map<u16, ValueView>|
            #[trigger] reaches(
                p,
                (Spot {
                    pc: h.loop_start as int,
                    regs: before(ins, outs, regs, counter, k),
                    world: ws[k as int],
                }),
                (Spot { pc: b2.code.len() as int + 2, regs: last, world: ws.last() }),
            ),
    decreases ins.len() - k,
{
    let n = ins.len();
    let lo = number(regs[counter])->0;
    let hi = number(regs[limit])->0;
    let check = b.next;
    let r0 = before(ins, outs, regs, counter, k);
    let w = ws[k as int];
    if k > 0 {
        let o = outs[k - 1];
        assert(o[counter] == ins[k - 1][counter]);
        assert(fits(number(o[counter])->0 + 1, o[counter]));
        lemma_successor(o[counter]);
        assert(o[limit] == ins[k - 1][limit]);
    }
    assert(kind(r0[counter]) == kind(regs[counter]) && number(r0[counter]) == Some(lo + k));
    assert(r0[limit] == regs[limit]);
    assert(fits(lo + k, r0[counter])) by {
        if k > 0 {
            assert(lo + k <= hi + 1);
        }
    }
    comparisons_follow_the_integers(r0[counter], r0[limit], no_span());
    let test = k < n;
    let at = Spot { pc: h.loop_start as int, regs: r0, world: w };
    let r1 = r0.insert(check, ValueView::Bool(test));
    lemma_step(p, at, p.code[at.pc]);
    let s1 = Spot { pc: h.loop_start + 1, regs: r1, world: w };
    assert(reaches(p, at, s1));
    lemma_step(p, s1, p.code[s1.pc]);
    let end = Spot { pc: b2.code.len() as int + 2, regs: r1, world: w };
    if test {
        let s2 = Spot { pc: b1.code.len() as int, regs: r1, world: w };
        assert(reaches(p, s1, s2));
        lemma_go_on(p, at, s1, s2);
        assert(r1 == ins[k as int]);
        let w1 = ws[k as int + 1];
        let o = outs[k as int];
        let s3 = Spot { pc: b2.code.len() as int, regs: o, world: w1 };
        assert(reaches(p, s2, s3));
        lemma_go_on(p, at, s2, s3);
        assert(o[counter] == ins[k as int][counter]);
        assert(fits(lo + k + 1, o[counter]));
        lemma_successor(o[counter]);
        lemma_step(p, s3, p.code[s3.pc]);
        let r2 = o.insert(counter, successor(o[counter])->0);
        let s4 = Spot { pc: b2.code.len() as int + 1, regs: r2, world: w1 };
        assert(reaches(p, s3, s4));
        lemma_go_on(p, at, s3, s4);
        lemma_step(p, s4, p.code[s4.pc]);
        let s5 = Spot { pc: h.loop_start as int, regs: r2, world: w1 };
        assert(reaches(p, s4, s5));
        lemma_go_on(p, at, s4, s5);
        assert(r2 == before(ins, outs, regs, counter, k + 1));
        lemma_range_rounds(p, counter, limit, inclusive, b, h, b1, b2, regs, ins, outs, ws, k + 1);
        let last = choose|last: Map<u16, ValueView>|
            #[trigger] reaches(p, s5, (Spot { pc: b2.code.len() as int + 2, regs: last, world: ws.last() }));
        lemma_go_on(p, at, s5, Spot { pc: b2.code.len() as int + 2, regs: last, world: ws.last() });
    } else {
        assert(reaches(p, s1, end));
        lemma_go_on(p, at, s1, end);
        assert(w == ws.last());
    }
}

/// The registers of a loop over an array: for its length, the counter, the number one,
/// the variable and the test.
pub open spec fn array_regs(h: LoopRegs, next: u16) -> bool {
    &&& next + 5 <= u16::MAX
    &&& h.bound_reg == next
    &&& h.counter_reg == next + 1
    &&& h.one_reg == next + 2
    &&& h.var_reg == next + 3
}

#[verifier::rlimit(40)]
proof fn lemma_array_layout(
    cx: UnitView,
    arr: u16,
    var: Seq<char>,
    b: BuilderView,
    h: LoopRegs,
    b1: BuilderView,
    frame: LoopView,
    b2: BuilderView,
    code: Seq<Instr>,
) -> (idx: (u16, u16))
    requires
        array_head(cx, arr, var, b) == Ok::<(LoopRegs, BuilderView), ErrorView>((h, b1)),
        b1.consts.len() <= 0x1_0000,
        extends(b1.code, b2.code),
        waiting(frame, b2.code, b1.code.len() as int, b2.code.len() as int),
        holds_from(code, array_tail(h, frame, b2), b.code.len() as int),
    ensures
        array_regs(h, b.next),
        h.loop_start == b.code.len() + 3,
        b1.code.len() == b.code.len() + 6,
        array_tail(h, frame, b2).code.len() == b2.code.len() + 2,
        idx.0 < b1.consts.len(),
        idx.1 < b1.consts.len(),
        b1.consts[idx.0 as int] == ConstView::Int(0),
        b1.consts[idx.1 as int] == ConstView::Int(1),
        code[b.code.len() as int] == (Instr::BuiltinLen { dst: h.bound_reg, src: arr }),
        code[b.code.len() as int + 1] == (Instr::LoadConst { dst: h.counter_reg, idx: idx.0 }),
        code[b.code.len() as int + 2] == (Instr::LoadConst { dst: h.one_reg, idx: idx.1 }),
        code[b.code.len() as int + 3] == (Instr::Bin {
            op: BinOp::Lt,
            dst: (b.next + 4) as u16,
            lhs: h.counter_reg,
            rhs: h.bound_reg,
        }),
        code[b.code.len() as int + 4] == (Instr::JumpIfFalse {
            cond: (b.next + 4) as u16,
            offset: offset_to((b.code.len() + 4) as nat, (b2.code.len() + 2) as nat),
        }),
        code[b.code.len() as int + 5] == (Instr::ArrayGet { dst: h.var_reg, arr, idx: h.counter_reg }),
        code[b2.code.len() as int] == (Instr::Bin {
            op: BinOp::Add,
            dst: h.counter_reg,
            lhs: h.counter_reg,
            rhs: h.one_reg,
        }),
        code[b2.code.len() as int + 1] == (Instr::Jump {
            offset: offset_to((b2.code.len() + 1) as nat, h.loop_start as nat),
        }),
        forall|i: int|
            b1.code.len() <= i < b2.code.len() ==> #[trigger] code[i] == settled(
                frame,
                b2.code,
                i,
                b2.code.len() + 2,
                b2.code.len(),
            ),
{
    let k0 = crate::builder::emitted(
        crate::builder::allocated(b, 1, cx.func.name@, cx.func.span)->Ok_0.1,
        Instr::BuiltinLen { dst: h.bound_reg, src: arr },
    );
    let k1 = crate::builder::allocated(k0, 1, cx.func.name@, cx.func.span)->Ok_0.1;
    let i0 = crate::builder::const_index(k1, ConstView::Int(0));
    let k2 = crate::builder::emitted(
        crate::builder::with_const(k1, ConstView::Int(0)),
        Instr::LoadConst { dst: h.counter_reg, idx: i0 },
    );
    let k3 = crate::builder::allocated(k2, 1, cx.func.name@, cx.func.span)->Ok_0.1;
    let i1 = crate::builder::const_index(k3, ConstView::Int(1));
    let k4 = crate::builder::with_const(k3, ConstView::Int(1));
    assert(b1.consts == k4.consts);
    assert(k3.consts.len() <= k4.consts.len());
    lemma_const(k1, ConstView::Int(0));
    lemma_const(k3, ConstView::Int(1));
    assert(k4.consts[i0 as int] == k3.consts[i0 as int]);
    let q = b2.code.len();
    let n = b.code.len() as int;
    let t = array_tail(h, frame, b2);
    let c1 = crate::builder::patched_all(b2, frame.continues, frame.continues.len(), q);
    lemma_patched_all(b2, frame.continues, frame.continues.len(), q);
    assert(frame.continues.take(frame.continues.len() as int) =~= frame.continues);
    assert(frame.breaks.take(frame.breaks.len() as int) =~= frame.breaks);
    let c2 = crate::builder::emitted(
        c1,
        Instr::Bin { op: BinOp::Add, dst: h.counter_reg, lhs: h.counter_reg, rhs: h.one_reg },
    );
    let c3 = crate::builder::patched(
        crate::builder::emitted(c2, Instr::Jump { offset: 0 }),
        c2.code.len(),
        h.loop_start as nat,
    );
    let c4 = crate::builder::patched(c3, h.exit as nat, (q + 2) as nat);
    lemma_patched_all(c4, frame.breaks, frame.breaks.len(), (q + 2) as nat);
    assert(t.code == crate::builder::patched_all(c4, frame.breaks, frame.breaks.len(), (q + 2) as nat).code);
    assert(b1.code.len() == n + 6);
    assert(t.code.len() == q + 2);
    assert(h.loop_start == n + 3);
    assert(h.exit == n + 4);
    assert forall|i: int| n <= i < n + 6 || i >= q implies !listed(frame.breaks, i) && !listed(frame.continues, i) by {}
    assert forall|i: int| n <= i < n + 6 implies #[trigger] code[i] == if i == n + 4 {
        crate::optimize::retargeted(b1.code[i], offset_to(i as nat, (q + 2) as nat))
    } else {
        b1.code[i]
    } by {
        assert(code[i] == t.code[i]);
        assert(!listed(frame.breaks, i) && !listed(frame.continues, i));
        assert(c1.code[i] == b2.code[i]);
        assert(b2.code[i] == b1.code[i]);
    }
    assert(code[q as int] == t.code[q as int]);
    assert(code[q as int + 1] == t.code[q as int + 1]);
    assert(!listed(frame.breaks, q as int) && !listed(frame.breaks, q as int + 1));
    assert forall|i: int| b1.code.len() <= i < q implies #[trigger] code[i] == settled(
        frame,
        b2.code,
        i,
        (q + 2) as nat,
        q,
    ) by {
        assert(code[i] == t.code[i]);
        assert(c4.code[i] == c1.code[i]);
    }
    (i0, i1)
}

/// The registers of the rounds of a loop over an array: in each the counter holds the
/// number of the round, the test holds true, and the variable holds the element.
pub open spec fn visits(
    s: Seq<ValueView>,
    ins: Seq<Map<u16, ValueView>>,
    outs: Seq<Map<u16, ValueView>>,
    regs: Map<u16, ValueView>,
    h: LoopRegs,
    check: u16,
) -> bool {
    &&& ins.len() == outs.len() == s.len()
    &&& forall|k: int|
        0 <= k < s.len() ==> #[trigger] ins[k] == tried(outs, regs, h, s.len(), k).insert(
            check,
            ValueView::Bool(true),
        ).insert(h.var_reg, s[k])
}

/// The registers before the test of round `k`.
pub open spec fn tried(
    outs: Seq<Map<u16, ValueView>>,
    regs: Map<u16, ValueView>,
    h: LoopRegs,
    n: nat,
    k: int,
) -> Map<u16, ValueView> {
    if k == 0 {
        regs.insert(h.bound_reg, ValueView::Int(n as int)).insert(h.counter_reg, ValueView::Int(0)).insert(
            h.one_reg,
            ValueView::Int(1),
        )
    } else {
        outs[k - 1].insert(h.counter_reg, ValueView::Int(k))
    }
}

/// Whether the rounds leave the registers of the loop as they were.
pub open spec fn spares(
    ins: Seq<Map<u16, ValueView>>,
    outs: Seq<Map<u16, ValueView>>,
    arr: u16,
    h: LoopRegs,
) -> bool {
    forall|k: int|
        0 <= k < ins.len() ==> (#[trigger] outs[k])[arr] == ins[k][arr] && outs[k][h.bound_reg] == ins[k][h.bound_reg]
            && outs[k][h.counter_reg] == ins[k][h.counter_reg] && outs[k][h.one_reg] == ins[k][h.one_reg]
}

/// The code of a loop over an array runs its body once for each element, in order. The
/// body may be any code that comes to its end and leaves the array and the loop's own
/// registers as they were; in its `k`-th round the register of the loop's variable holds
/// the `k`-th element. After the last round the run is behind the loop.
pub proof fn the_code_of_an_array_loop_visits_every_element<W>(
    p: Loaded<W>,
    cx: UnitView,
    arr: u16,
    var: Seq<char>,
    b: BuilderView,
    h: LoopRegs,
    b1: BuilderView,
    frame: LoopView,
    b2: BuilderView,
    s: Seq<ValueView>,
    regs: Map<u16, ValueView>,
    ins: Seq<Map<u16, ValueView>>,
    outs: Seq<Map<u16, ValueView>>,
    ws: Seq<W>,
)
    requires
        follows(p),
        array_head(cx, arr, var, b) == Ok::<(LoopRegs, BuilderView), ErrorView>((h, b1)),
        arr < b.next,
        b.next + 5 <= u16::MAX,
        extends(b1.consts, p.consts),
        p.consts.len() <= 0x1_0000,
        extends(b1.code, b2.code),
        waiting(frame, b2.code, b1.code.len() as int, b2.code.len() as int),
        holds_from(p.code, array_tail(h, frame, b2), b.code.len() as int),
        regs[arr] == ValueView::Array(s),
        visits(s, ins, outs, regs, h, (b.next + 4) as u16),
        spares(ins, outs, arr, h),
        ws.len() == s.len() + 1,
        forall|k: int|
            0 <= k < s.len() ==> reaches(
                p,
                (Spot { pc: b1.code.len() as int, regs: #[trigger] ins[k], world: ws[k] }),
                (Spot { pc: b2.code.len() as int, regs: outs[k], world: ws[k + 1] }),
            ),
    ensures
        forall|k: int| 0 <= k < s.len() ==> (#[trigger] ins[k])[h.var_reg] == s[k],
        exists|last: Map<u16, ValueView>|
            #[trigger] reaches(
                p,
                (Spot { pc: b.code.len() as int, regs, world: ws[0] }),
                (Spot { pc: array_tail(h, frame, b2).code.len() as int, regs: last, world: ws.last() }),
            ),
{
    let idx = lemma_array_layout(cx, arr, var, b, h, b1, frame, b2, p.code);
    let n = b.code.len() as int;
    let w = ws[0];
    let at = Spot { pc: n, regs, world: w };
    lemma_step(p, at, p.code[n]);
    let g1 = regs.insert(h.bound_reg, ValueView::Int(s.len() as int));
    let s1 = Spot { pc: n + 1, regs: g1, world: w };
    assert(reaches(p, at, s1));
    assert(p.consts[idx.0 as int] == b1.consts[idx.0 as int]);
    assert(p.consts[idx.1 as int] == b1.consts[idx.1 as int]);
    lemma_step(p, s1, p.code[n + 1]);
    let g2 = g1.insert(h.counter_reg, ValueView::Int(0));
    let s2 = Spot { pc: n + 2, regs: g2, world: w };
    assert(reaches(p, s1, s2));
    lemma_go_on(p, at, s1, s2);
    lemma_step(p, s2, p.code[n + 2]);
    let g3 = g2.insert(h.one_reg, ValueView::Int(1));
    let s3 = Spot { pc: n + 3, regs: g3, world: w };
    assert(reaches(p, s2, s3));
    lemma_go_on(p, at, s2, s3);
    let last = lemma_array_rounds(p, arr, b.next, n, h, b2.code.len(), s, regs, ins, outs, ws, 0);
    lemma_go_on(p, at, s3, Spot { pc: b2.code.len() as int + 2, regs: last, world: ws.last() });
}

#[verifier::rlimit(40)]
proof fn lemma_array_rounds<W>(
    p: Loaded<W>,
    arr: u16,
    low: u16,
    n: int,
    h: LoopRegs,
    q: nat,
    s: Seq<ValueView>,
    regs: Map<u16, ValueView>,
    ins: Seq<Map<u16, ValueView>>,
    outs: Seq<Map<u16, ValueView>>,
    ws: Seq<W>,
    k: nat,
) -> (last: Map<u16, ValueView>)
    requires
        follows(p),
        k <= s.len(),
        arr < low,
        0 <= n,
        n + 6 <= q,
        q + 2 <= p.code.len() <= i32::MAX,
        h.loop_start == n + 3,
        array_regs(h, low),
        p.code[n + 3] == (Instr::Bin {
            op: BinOp::Lt,
            dst: (low + 4) as u16,
            lhs: h.counter_reg,
            rhs: h.bound_reg,
        }),
        p.code[n + 4] == (Instr::JumpIfFalse {
            cond: (low + 4) as u16,
            offset: offset_to((n + 4) as nat, (q + 2) as nat),
        }),
        p.code[n + 5] == (Instr::ArrayGet { dst: h.var_reg, arr, idx: h.counter_reg }),
        p.code[q as int] == (Instr::Bin {
            op: BinOp::Add,
            dst: h.counter_reg,
            lhs: h.counter_reg,
            rhs: h.one_reg,
        }),
        p.code[q as int + 1] == (Instr::Jump { offset: offset_to((q + 1) as nat, h.loop_start as nat) }),
        regs[arr] == ValueView::Array(s),
        visits(s, ins, outs, regs, h, (low + 4) as u16),
        spares(ins, outs, arr, h),
        ws.len() == s.len() + 1,
        k > 0 ==> outs[k - 1][arr] == ValueView::Array(s) && outs[k - 1][h.bound_reg] == ValueView::Int(s.len() as int)
            && outs[k - 1][h.one_reg] == ValueView::Int(1),
        forall|k: int|
            0 <= k < s.len() ==> reaches(
                p,
                (Spot { pc: n + 6, regs: #[trigger] ins[k], world: ws[k] }),
                (Spot { pc: q as int, regs: outs[k], world: ws[k + 1] }),
            ),
    ensures
        reaches(
            p,
            (Spot { pc: n + 3, regs: tried(outs, regs, h, s.len(), k as int), world: ws[k as int] }),
            (Spot { pc: q as int + 2, regs: last, world: ws.last() }),
        ),
    decreases s.len() - k,
{
    let check = (low + 4) as u16;
    let r0 = tried(outs, regs, h, s.len(), k as int);
    let w = ws[k as int];
    let test = k < s.len();
    assert(r0[h.counter_reg] == ValueView::Int(k as int));
    assert(r0[h.bound_reg] == ValueView::Int(s.len() as int));
    assert(r0[h.one_reg] == ValueView::Int(1));
    assert(r0[arr] == ValueView::Array(s));
    comparisons_follow_the_integers(r0[h.counter_reg], r0[h.bound_reg], no_span());
    let at = Spot { pc: n + 3, regs: r0, world: w };
    lemma_step(p, at, p.code[n + 3]);
    let r1 = r0.insert(check, ValueView::Bool(test));
    let s1 = Spot { pc: n + 4, regs: r1, world: w };
    assert(reaches(p, at, s1));
    lemma_step(p, s1, p.code[n + 4]);
    if test {
        let s2 = Spot { pc: n + 5, regs: r1, world: w };
        assert(reaches(p, s1, s2));
        lemma_go_on(p, at, s1, s2);
        lemma_step(p, s2, p.code[n + 5]);
        let r2 = r1.insert(h.var_reg, s[k as int]);
        let s3 = Spot { pc: n + 6, regs: r2, world: w };
        assert(reaches(p, s2, s3));
        lemma_go_on(p, at, s2, s3);
        assert(r2 == ins[k as int]);
        let o = outs[k as int];
        let w1 = ws[k as int + 1];
        let s4 = Spot { pc: q as int, regs: o, world: w1 };
        assert(reaches(p, s3, s4));
        lemma_go_on(p, at, s3, s4);
        assert(o[arr] == r2[arr]);
        arithmetic_is_exact(o[h.counter_reg], o[h.one_reg], no_span());
        lemma_step(p, s4, p.code[q as int]);
        let r3 = o.insert(h.counter_reg, ValueView::Int(k as int + 1));
        let s5 = Spot { pc: q as int + 1, regs: r3, world: w1 };
        assert(reaches(p, s4, s5));
        lemma_go_on(p, at, s4, s5);
        lemma_step(p, s5, p.code[q as int + 1]);
        let s6 = Spot { pc: n + 3, regs: r3, world: w1 };
        assert(reaches(p, s5, s6));
        lemma_go_on(p, at, s5, s6);
        let last = lemma_array_rounds(p, arr, low, n, h, q, s, regs, ins, outs, ws, k + 1);
        lemma_go_on(p, at, s6, Spot { pc: q as int + 2, regs: last, world: ws.last() });
        last
    } else {
        let end = Spot { pc: q as int + 2, regs: r1, world: w };
        assert(reaches(p, s1, end));
        lemma_go_on(p, at, s1, end);
        r1
    }
}

} // verus!
