//! How code is laid out by a function under compilation: what later steps leave alone,
//! and where its jumps go in the end.

use vstd::prelude::*;
use crate::bc::{ConstView, Instr};
use crate::builder::{
    BuilderView, LoopView, const_at, const_index, const_same, offset_to, patched, patched_all, with_const,
};
use crate::optimize::retargeted;

verus! {

/// Whether a list starts with another.
pub open spec fn extends<A>(a: Seq<A>, b: Seq<A>) -> bool {
    &&& a.len() <= b.len()
    &&& forall|i: int| 0 <= i < a.len() ==> #[trigger] b[i] == a[i]
}

/// Whether a place is one of a list.
pub open spec fn listed(s: Seq<usize>, i: int) -> bool {
    exists|j: int| 0 <= j < s.len() && #[trigger] s[j] as int == i
}

/// Patching changes the jumps at the listed places and nothing else.
pub(crate) proof fn lemma_patched_all(b: BuilderView, s: Seq<usize>, n: nat, target: nat)
    requires
        n <= s.len(),
    ensures
        patched_all(b, s, n, target).code.len() == b.code.len(),
        patched_all(b, s, n, target) == (BuilderView { code: patched_all(b, s, n, target).code, ..b }),
        forall|i: int|
            0 <= i < b.code.len() ==> #[trigger] patched_all(b, s, n, target).code[i] == if listed(s.take(n as int), i) {
                retargeted(b.code[i], offset_to(i as nat, target))
            } else {
                b.code[i]
            },
    decreases n,
{
    if n == 0 {
        assert forall|i: int| 0 <= i < b.code.len() implies !listed(s.take(0), i) by {}
    } else {
        let m = (n - 1) as nat;
        lemma_patched_all(b, s, m, target);
        let c = patched_all(b, s, m, target);
        let r = patched_all(b, s, n, target);
        assert(r == patched(c, s[n - 1] as nat, target));
        assert forall|i: int| 0 <= i < b.code.len() implies #[trigger] r.code[i] == if listed(s.take(n as int), i) {
            retargeted(b.code[i], offset_to(i as nat, target))
        } else {
            b.code[i]
        } by {
            assert(c.code[i] == if listed(s.take(m as int), i) {
                retargeted(b.code[i], offset_to(i as nat, target))
            } else {
                b.code[i]
            });
            if listed(s.take(m as int), i) {
                let j = choose|j: int| 0 <= j < m && #[trigger] s.take(m as int)[j] as int == i;
                assert(s.take(n as int)[j] as int == i);
            }
            if s[n - 1] as int == i {
                assert(s.take(n as int)[n - 1] as int == i);
            } else if listed(s.take(n as int), i) {
                let j = choose|j: int| 0 <= j < n && #[trigger] s.take(n as int)[j] as int == i;
                assert(s.take(m as int)[j] as int == i);
            }
        }
    }
}

/// Whether the places that wait for a loop's end and for its next round are jumps of
/// the code between two places, and none waits for both.
pub open spec fn waiting(f: LoopView, code: Seq<Instr>, from: int, to: int) -> bool {
    &&& forall|i: int| #[trigger] listed(f.breaks, i) ==> from <= i < to && code[i] is Jump
    &&& forall|i: int| #[trigger] listed(f.continues, i) ==> from <= i < to && code[i] is Jump
    &&& forall|i: int| #[trigger] listed(f.breaks, i) ==> !listed(f.continues, i)
}

/// The instruction at a place once the jumps that wait there know their targets.
pub open spec fn settled(f: LoopView, code: Seq<Instr>, i: int, brk: nat, next: nat) -> Instr {
    if listed(f.breaks, i) {
        Instr::Jump { offset: offset_to(i as nat, brk) }
    } else if listed(f.continues, i) {
        Instr::Jump { offset: offset_to(i as nat, next) }
    } else {
        code[i]
    }
}

/// A constant is in the pool at its number.
pub(crate) proof fn lemma_const(b: BuilderView, c: ConstView)
    requires
        !(c is Float),
        with_const(b, c).consts.len() <= 0x1_0000,
    ensures
        extends(b.consts, with_const(b, c).consts),
        const_index(b, c) < with_const(b, c).consts.len(),
        with_const(b, c).consts[const_index(b, c) as int] == c,
        with_const(b, c) == (BuilderView { consts: with_const(b, c).consts, ..b }),
{
    lemma_const_found(b.consts, c, 0);
}

proof fn lemma_const_found(s: Seq<ConstView>, c: ConstView, i: nat)
    ensures
        const_at(s, c, i) matches Some(k) ==> i <= k < s.len() && const_same(s[k], c),
    decreases s.len() - i,
{
    if i < s.len() && !const_same(s[i as int], c) {
        lemma_const_found(s, c, i + 1);
    }
}

} // verus!
