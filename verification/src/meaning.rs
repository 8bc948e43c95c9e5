//! What a machine that runs compiled code does: the meaning of the plain instructions
//! over registers that hold values, and where a run gets to.

use vstd::prelude::*;
use crate::ast::{BinOp, UnOp};
use crate::bc::{ConstView, Instr, ReadOp};
use crate::error::ErrorView;
use crate::ops::{Owed, binary, unary};
use crate::optimize::{Meaning, Turn, leap_of, outcome};
use crate::token::{Span, no_span};
use crate::value::ValueView;

verus! {

/// The value of a constant of a pool.
pub open spec fn const_value(c: ConstView) -> ValueView {
    match c {
        ConstView::Int(n) => ValueView::Int(n),
        ConstView::UInt(n) => ValueView::UInt(n),
        ConstView::Float(n) => ValueView::Float(n),
        ConstView::I32(n) => ValueView::I32(n),
        ConstView::U32(n) => ValueView::U32(n),
        ConstView::U64(n) => ValueView::U64(n),
        ConstView::U128(n) => ValueView::U128(n),
        ConstView::Bool(b) => ValueView::Bool(b),
        ConstView::Str(s) => ValueView::Str(s),
    }
}

/// The next value of an integer type, if there is one.
pub open spec fn successor(v: ValueView) -> Option<ValueView> {
    match v {
        ValueView::Int(n) => Some(ValueView::Int(n + 1)),
        ValueView::UInt(n) => Some(ValueView::UInt(n + 1)),
        ValueView::I32(n) => if n < i32::MAX {
            Some(ValueView::I32((n + 1) as i32))
        } else {
            None
        },
        ValueView::U32(n) => if n < u32::MAX {
            Some(ValueView::U32((n + 1) as u32))
        } else {
            None
        },
        ValueView::U64(n) => if n < u64::MAX {
            Some(ValueView::U64((n + 1) as u64))
        } else {
            None
        },
        ValueView::U128(n) => if n < u128::MAX {
            Some(ValueView::U128((n + 1) as u128))
        } else {
            None
        },
        _ => None,
    }
}

/// The turn of an instruction that puts what is owed in a register, if it is a value.
pub open spec fn puts<W>(regs: Map<u16, ValueView>, w: W, dst: u16, v: Owed) -> Option<Turn<ValueView, W>> {
    match v {
        Ok(x) => Some(Turn::On(regs.insert(dst, x), w)),
        Err(_) => None,
    }
}

/// What an instruction that only moves and computes values does. Of one that fails,
/// and of every other instruction, nothing is said.
pub open spec fn plain_turn<W>(consts: Seq<ConstView>, i: Instr, regs: Map<u16, ValueView>, w: W) -> Option<
    Turn<ValueView, W>,
> {
    match i {
        Instr::LoadConst { dst, idx } => if idx < consts.len() {
            puts(regs, w, dst, Ok(const_value(consts[idx as int])))
        } else {
            None
        },
        Instr::Move { dst, src } => puts(regs, w, dst, Ok(regs[src])),
        Instr::Bin { op, dst, lhs, rhs } => puts(regs, w, dst, binary(op, regs[lhs], regs[rhs], no_span())),
        Instr::Un { op, dst, src } => puts(regs, w, dst, unary(op, regs[src], no_span())),
        Instr::Jump { offset } => Some(Turn::Leap(regs, w)),
        Instr::JumpIfFalse { cond, offset } => match regs[cond] {
            ValueView::Bool(b) => if b {
                Some(Turn::On(regs, w))
            } else {
                Some(Turn::Leap(regs, w))
            },
            _ => None,
        },
        Instr::Return { src } => Some(Turn::Stop(regs[src], w)),
        Instr::ReturnUnit => Some(Turn::Stop(ValueView::Unit, w)),
        Instr::IncReg { reg } => match successor(regs[reg]) {
            Some(v) => puts(regs, w, reg, Ok(v)),
            None => None,
        },
        Instr::BuiltinLen { dst, src } => match regs[src] {
            ValueView::Array(s) => puts(regs, w, dst, Ok(ValueView::Int(s.len() as int))),
            _ => None,
        },
        Instr::ArrayGet { dst, arr, idx } => match (regs[arr], regs[idx]) {
            (ValueView::Array(s), ValueView::Int(k)) => if 0 <= k < s.len() {
                puts(regs, w, dst, Ok(s[k]))
            } else {
                None
            },
            _ => None,
        },
        _ => None,
    }
}

/// Code on a machine: a meaning of the instructions, the code, its groups of reads and
/// its constants.
#[verifier::reject_recursive_types(W)]
pub struct Loaded<W> {
    pub meaning: Meaning<ValueView, W>,
    pub code: Seq<Instr>,
    pub groups: Seq<Seq<ReadOp>>,
    pub consts: Seq<ConstView>,
}

/// Whether the machine follows the meaning of the plain instructions; to all others it
/// may give any meaning.
pub open spec fn follows<W>(p: Loaded<W>) -> bool {
    forall|i: Instr, regs: Map<u16, ValueView>, w: W|
        plain_turn(p.consts, i, regs, w) matches Some(t) ==> #[trigger] (p.meaning.act)(i, regs, w) == t
}

/// Where a run is: the next instruction, the registers and the world.
#[verifier::reject_recursive_types(W)]
pub struct Spot<W> {
    pub pc: int,
    pub regs: Map<u16, ValueView>,
    pub world: W,
}

/// What the code gives from a spot on within `n` instructions.
pub open spec fn rest_of<W>(p: Loaded<W>, s: Spot<W>, n: nat) -> Option<(ValueView, W)> {
    outcome(p.meaning, p.code, p.groups, s.pc, s.regs, s.world, n)
}

/// Whether a run at `a` is at `b` after `k` instructions: what it gives then is what it
/// gives from `b` on.
pub open spec fn arrives<W>(p: Loaded<W>, a: Spot<W>, b: Spot<W>, k: nat) -> bool {
    forall|n: nat| rest_of(p, a, (n + k) as nat) == #[trigger] rest_of(p, b, n)
}

/// Whether a run at one spot comes to another.
pub open spec fn reaches<W>(p: Loaded<W>, a: Spot<W>, b: Spot<W>) -> bool {
    exists|k: nat| arrives(p, a, b, k)
}

/// Whether a run at a spot has stopped after `k` instructions.
pub open spec fn has_stopped<W>(p: Loaded<W>, a: Spot<W>, v: ValueView, w: W, k: nat) -> bool {
    forall|n: nat| n >= k ==> #[trigger] rest_of(p, a, n) == Some((v, w))
}

/// Whether a run at a spot stops with a value and leaves a world behind.
pub open spec fn stops<W>(p: Loaded<W>, a: Spot<W>, v: ValueView, w: W) -> bool {
    exists|k: nat| has_stopped(p, a, v, w, k)
}

pub(crate) proof fn lemma_go_on<W>(p: Loaded<W>, a: Spot<W>, b: Spot<W>, c: Spot<W>)
    requires
        reaches(p, a, b),
        reaches(p, b, c),
    ensures
        reaches(p, a, c),
{
    let k = choose|k: nat| arrives(p, a, b, k);
    let l = choose|l: nat| arrives(p, b, c, l);
    assert forall|n: nat| rest_of(p, a, (n + (k + l)) as nat) == #[trigger] rest_of(p, c, n) by {
        assert(rest_of(p, b, (n + l) as nat) == rest_of(p, c, n));
        assert(rest_of(p, a, ((n + l) + k) as nat) == rest_of(p, b, (n + l) as nat));
    }
    assert(arrives(p, a, c, k + l));
}

/// One instruction of a run.
pub(crate) proof fn lemma_step<W>(p: Loaded<W>, a: Spot<W>, i: Instr)
    requires
        follows(p),
        0 <= a.pc < p.code.len(),
        p.code[a.pc] == i,
    ensures
        match plain_turn(p.consts, i, a.regs, a.world) {
            Some(Turn::On(regs, world)) => reaches(p, a, Spot { pc: a.pc + 1, regs, world }),
            Some(Turn::Leap(regs, world)) => leap_of(i) matches Some(offset) ==> reaches(
                p,
                a,
                Spot { pc: a.pc + 1 + offset, regs, world },
            ),
            Some(Turn::Stop(v, world)) => stops(p, a, v, world),
            None => true,
        },
{
    let t = plain_turn(p.consts, i, a.regs, a.world);
    if t is Some {
        assert((p.meaning.act)(i, a.regs, a.world) == t->0);
        match t->0 {
            Turn::On(regs, world) => {
                let b = Spot { pc: a.pc + 1, regs, world };
                assert forall|n: nat| rest_of(p, a, (n + 1) as nat) == #[trigger] rest_of(p, b, n) by {}
                assert(arrives(p, a, b, 1));
            },
            Turn::Leap(regs, world) => {
                if leap_of(i) is Some {
                    let b = Spot { pc: a.pc + 1 + leap_of(i)->0, regs, world };
                    assert forall|n: nat| rest_of(p, a, (n + 1) as nat) == #[trigger] rest_of(p, b, n) by {}
                    assert(arrives(p, a, b, 1));
                }
            },
            Turn::Stop(v, world) => {
                assert forall|n: nat| n >= 1 implies #[trigger] rest_of(p, a, n) == Some((v, world)) by {}
                assert(has_stopped(p, a, v, world, 1));
            },
        }
    }
}

/// Where a value is owed is not what the value depends on.
pub(crate) proof fn lemma_anywhere(op: BinOp, l: ValueView, r: ValueView, span: Span)
    ensures
        binary(op, l, r, span) matches Ok(v) ==> binary(op, l, r, no_span()) == Ok::<ValueView, ErrorView>(v),
{
}

pub(crate) proof fn lemma_anywhere_unary(op: UnOp, v: ValueView, span: Span)
    ensures
        unary(op, v, span) matches Ok(x) ==> unary(op, v, no_span()) == Ok::<ValueView, ErrorView>(x),
{
}

} // verus!
