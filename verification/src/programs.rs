//! What a whole module does, before and after optimization.
//!
//! No machine is fixed here. A device says what a read finds, what an instruction
//! does, and how a call hands arguments over and takes the result back; a call runs
//! the code of the called function on the same device. Whatever the device is, as
//! long as it keeps to what is said of the instructions, every function of an
//! optimized module gives the result and leaves behind the world that it did before.

use vstd::prelude::*;
use crate::bc::{BcFn, BcModule, Instr};
use crate::compile::{compiles_source, fns_code, is_compiled, is_framed, SourceView};
use crate::effects::EffectTable;
use crate::engine::is_optimized;
use crate::optimize::{
    added_groups, addressable, beside, breaks, ends_with, faithful, finds_alike, groups_view, ignores_distance,
    is_quiet, is_read, issues, leap_of, leaves_alone, optimized_fn, optimizing_keeps_the_meaning, outcome, retargeted,
    silent_calls, touches, well_linked, Meaning, Turn,
};

verus! {

/// What runs a module: the meaning of its instructions, the registers that a called
/// function starts with, what its result does to the caller, and the result where a
/// call never comes back. What the meaning says of calls is not used.
#[verifier::reject_recursive_types(V)]
#[verifier::reject_recursive_types(W)]
pub struct Device<V, W> {
    pub base: Meaning<V, W>,
    pub enter: spec_fn(Instr, Map<u16, V>) -> Map<u16, V>,
    pub back: spec_fn(Instr, Map<u16, V>, V, W) -> Turn<V, W>,
    pub lost: V,
}

/// Whether a function, called with registers in a world, gives a result and leaves a
/// world behind.
pub open spec fn gives<V, W>(m: Meaning<V, W>, f: BcFn, regs: Map<u16, V>, w: W, x: (V, W)) -> bool {
    ends_with(m, f.code@, groups_view(f.read_groups@), regs, w, x)
}

/// What a call of a function gives, if it comes back.
pub open spec fn called<V, W>(m: Meaning<V, W>, f: BcFn, regs: Map<u16, V>, w: W) -> Option<(V, W)> {
    if exists|x: (V, W)| #[trigger] gives(m, f, regs, w, x) {
        Some(choose|x: (V, W)| #[trigger] gives(m, f, regs, w, x))
    } else {
        None
    }
}

/// What a call does to the caller, where calls inside it mean `m`.
pub open spec fn call_turn<V, W>(
    dev: Device<V, W>,
    m: Meaning<V, W>,
    fns: Seq<BcFn>,
    i: Instr,
    regs: Map<u16, V>,
    w: W,
) -> Turn<V, W> {
    match i {
        Instr::Call { dst, fn_idx, args_start, n_args } => if fn_idx < fns.len() {
            match called(m, fns[fn_idx as int], (dev.enter)(i, regs), w) {
                Some(x) => (dev.back)(i, regs, x.0, x.1),
                None => Turn::Stop(dev.lost, w),
            }
        } else {
            Turn::Stop(dev.lost, w)
        },
        _ => (dev.base.act)(i, regs, w),
    }
}

/// The meaning of the instructions in a module whose calls nest at most `depth` deep;
/// a deeper one never comes back.
pub open spec fn nested<V, W>(dev: Device<V, W>, fns: Seq<BcFn>, depth: nat) -> Meaning<V, W>
    decreases depth,
{
    if depth == 0 {
        Meaning {
            read: dev.base.read,
            act: |i: Instr, regs: Map<u16, V>, w: W|
                if i is Call {
                    Turn::Stop(dev.lost, w)
                } else {
                    (dev.base.act)(i, regs, w)
                },
        }
    } else {
        let inner = nested(dev, fns, (depth - 1) as nat);
        Meaning {
            read: dev.base.read,
            act: |i: Instr, regs: Map<u16, V>, w: W| call_turn(dev, inner, fns, i, regs, w),
        }
    }
}

/// Whether calls have to do with no register but their arguments and their target,
/// and come back to the next instruction in the world that the called function left.
pub open spec fn calls_properly<V, W>(dev: Device<V, W>) -> bool {
    &&& forall|i: Instr, regs: Map<u16, V>, r: u16, v: V|
        i is Call && !touches(i, r) ==> #[trigger] (dev.enter)(i, regs.insert(r, v)) == (dev.enter)(i, regs)
    &&& forall|i: Instr, regs: Map<u16, V>, r: u16, v: V, y: V, w: W|
        i is Call && !touches(i, r) ==> #[trigger] (dev.back)(i, regs.insert(r, v), y, w) == beside(
            (dev.back)(i, regs, y, w),
            r,
            v,
        )
    &&& forall|i: Instr, regs: Map<u16, V>, y: V, w: W|
        i is Call ==> match #[trigger] (dev.back)(i, regs, y, w) {
            Turn::On(_, after) => after == w,
            Turn::Leap(_, _) => false,
            Turn::Stop(_, _) => true,
        }
}

/// Whether a function, however deep its calls nest, leaves a world in which reads
/// find what they found before.
pub open spec fn leaves_reads_alone<V, W>(dev: Device<V, W>, fns: Seq<BcFn>, k: int) -> bool {
    forall|depth: nat, regs: Map<u16, V>, w: W, x: (V, W)| #[trigger]
        gives(nested(dev, fns, depth), fns[k], regs, w, x) ==> finds_alike(dev.base, w, x.1)
}

/// Whether a device keeps to what is said of the instructions of a module: the base
/// is faithful, calls are proper, and the functions that count as silent change
/// nothing that a read could find.
pub open spec fn runs_faithfully<V, W>(dev: Device<V, W>, fns: Seq<BcFn>, silent: Seq<bool>) -> bool {
    &&& faithful(dev.base, silent)
    &&& calls_properly(dev)
    &&& forall|k: int| 0 <= k < silent.len() && silent[k] ==> #[trigger] leaves_reads_alone(dev, fns, k)
}

/// Whether the code of every function of a module has its jumps and groups in place,
/// and room for the groups that optimization adds.
pub open spec fn links_well(m: BcModule, silent: Seq<bool>) -> bool {
    forall|k: int|
        0 <= k < m.functions@.len() ==> {
            let f = #[trigger] m.functions@[k];
            well_linked(f.code@, f.read_groups@.len()) && f.read_groups@.len() + added_groups(f.code@, silent).len()
                <= 65536
        }
}

/// More steps change nothing once the code has stopped.
proof fn lemma_more_steps<V, W>(
    m: Meaning<V, W>,
    f: BcFn,
    pc: int,
    regs: Map<u16, V>,
    w: W,
    n: nat,
    more: nat,
)
    requires
        outcome(m, f.code@, groups_view(f.read_groups@), pc, regs, w, n) is Some,
        n <= more,
    ensures
        outcome(m, f.code@, groups_view(f.read_groups@), pc, regs, w, more) == outcome(
            m,
            f.code@,
            groups_view(f.read_groups@),
            pc,
            regs,
            w,
            n,
        ),
    decreases n,
{
    if n > 0 && 0 <= pc < f.code@.len() {
        let i = f.code@[pc];
        let (a, b) = ((n - 1) as nat, (more - 1) as nat);
        match issues(i, groups_view(f.read_groups@)) {
            Some(ops) => lemma_more_steps(m, f, pc + 1, crate::optimize::filled(m, ops, regs, w), w, a, b),
            None => match (m.act)(i, regs, w) {
                Turn::On(r, after) => lemma_more_steps(m, f, pc + 1, r, after, a, b),
                Turn::Leap(r, after) => match leap_of(i) {
                    Some(offset) => lemma_more_steps(m, f, pc + 1 + offset, r, after, a, b),
                    None => {},
                },
                Turn::Stop(_, _) => {},
            },
        }
    }
}

/// A function gives at most one result.
pub proof fn results_are_unique<V, W>(m: Meaning<V, W>, f: BcFn, regs: Map<u16, V>, w: W, x: (V, W), y: (V, W))
    requires
        gives(m, f, regs, w, x),
        gives(m, f, regs, w, y),
    ensures
        x == y,
{
    let g = groups_view(f.read_groups@);
    let a = choose|a: nat| #[trigger] outcome(m, f.code@, g, 0, regs, w, a) == Some(x);
    let b = choose|b: nat| #[trigger] outcome(m, f.code@, g, 0, regs, w, b) == Some(y);
    if a <= b {
        lemma_more_steps(m, f, 0, regs, w, a, b);
    } else {
        lemma_more_steps(m, f, 0, regs, w, b, a);
    }
}

/// Other instructions than calls mean what they mean at the base.
proof fn lemma_base_act<V, W>(dev: Device<V, W>, fns: Seq<BcFn>, depth: nat, i: Instr)
    requires
        !(i is Call),
    ensures
        forall|regs: Map<u16, V>, w: W| #[trigger] (nested(dev, fns, depth).act)(i, regs, w) == (dev.base.act)(i, regs, w),
        nested(dev, fns, depth).read == dev.base.read,
{
}

/// What a call does in a module.
proof fn lemma_call_act<V, W>(dev: Device<V, W>, fns: Seq<BcFn>, depth: nat, i: Instr)
    requires
        i is Call,
    ensures
        depth == 0 ==> forall|regs: Map<u16, V>, w: W| #[trigger]
            (nested(dev, fns, depth).act)(i, regs, w) == Turn::<V, W>::Stop(dev.lost, w),
        depth > 0 ==> forall|regs: Map<u16, V>, w: W| #[trigger]
            (nested(dev, fns, depth).act)(i, regs, w) == call_turn(
                dev,
                nested(dev, fns, (depth - 1) as nat),
                fns,
                i,
                regs,
                w,
            ),
        nested(dev, fns, depth).read == dev.base.read,
{
}

/// On a device that keeps to what is said, calls do so too.
#[verifier::rlimit(60)]
proof fn lemma_nested_faithful<V, W>(dev: Device<V, W>, fns: Seq<BcFn>, silent: Seq<bool>, depth: nat)
    requires
        runs_faithfully(dev, fns, silent),
        silent.len() == fns.len(),
    ensures
        faithful(nested(dev, fns, depth), silent),
{
    let m = nested(dev, fns, depth);
    assert forall|i: Instr, r: u16| !is_read(i) && !(i is ReadBatch) && !touches(i, r) implies #[trigger]
        leaves_alone(m, i, r) by {
        if i is Call {
            lemma_call_act(dev, fns, depth, i);
        } else {
            lemma_base_act(dev, fns, depth, i);
            assert(leaves_alone(dev.base, i, r));
        }
        assert forall|regs: Map<u16, V>, w: W, v: V| #[trigger]
            (m.act)(i, regs.insert(r, v), w) == beside((m.act)(i, regs, w), r, v) by {
            if !(i is Call) {
                assert((dev.base.act)(i, regs.insert(r, v), w) == beside((dev.base.act)(i, regs, w), r, v));
            } else if depth > 0 {
                assert((dev.enter)(i, regs.insert(r, v)) == (dev.enter)(i, regs));
            }
        }
    }
    assert forall|i: Instr| !is_read(i) && !breaks(i, silent) implies #[trigger] is_quiet(m, i) by {
        if i is Call {
            lemma_call_act(dev, fns, depth, i);
        } else {
            lemma_base_act(dev, fns, depth, i);
            assert(is_quiet(dev.base, i));
        }
        assert forall|regs: Map<u16, V>, w: W|
            match #[trigger] (m.act)(i, regs, w) {
                Turn::On(_, after) => finds_alike(m, w, after),
                Turn::Leap(_, _) => false,
                Turn::Stop(_, _) => true,
            } by {
            if !(i is Call) {
                match (dev.base.act)(i, regs, w) {
                    Turn::On(_, after) => assert(finds_alike(dev.base, w, after)),
                    _ => {},
                }
            } else if depth > 0 {
                match i {
                    Instr::Call { dst, fn_idx, args_start, n_args } => {
                        let k = fn_idx as int;
                        let inner = nested(dev, fns, (depth - 1) as nat);
                        let start = (dev.enter)(i, regs);
                        match called(inner, fns[k], start, w) {
                            Some(x) => {
                                assert(gives(inner, fns[k], start, w, x));
                                assert(leaves_reads_alone(dev, fns, k));
                                assert(finds_alike(dev.base, w, x.1));
                                match (dev.back)(i, regs, x.0, x.1) {
                                    Turn::On(_, after) => assert(after == x.1),
                                    _ => {},
                                }
                            },
                            None => {},
                        }
                    },
                    _ => {},
                }
            }
        }
    }
    assert forall|i: Instr| leap_of(i) is Some implies #[trigger] ignores_distance(m, i) by {
        assert(ignores_distance(dev.base, i));
        lemma_base_act(dev, fns, depth, i);
        assert forall|offset: i32, regs: Map<u16, V>, w: W| #[trigger]
            (m.act)(retargeted(i, offset), regs, w) == (m.act)(i, regs, w) by {
            assert(!(retargeted(i, offset) is Call));
            lemma_base_act(dev, fns, depth, retargeted(i, offset));
            assert((dev.base.act)(retargeted(i, offset), regs, w) == (dev.base.act)(i, regs, w));
        }
    }
}

/// One function, where calls mean the same before and after.
proof fn lemma_fn_same<V, W>(
    m: Meaning<V, W>,
    f: BcFn,
    g: BcFn,
    silent: Seq<bool>,
    regs: Map<u16, V>,
    w: W,
    x: (V, W),
)
    requires
        faithful(m, silent),
        optimized_fn(f, g, silent),
        f.code@.len() <= i32::MAX,
        well_linked(f.code@, f.read_groups@.len()),
        f.read_groups@.len() + added_groups(f.code@, silent).len() <= 65536,
    ensures
        gives(m, g, regs, w, x) == gives(m, f, regs, w, x),
{
    optimizing_keeps_the_meaning(m, f.code@, silent, groups_view(f.read_groups@), regs, w, x);
}

proof fn lemma_called_same<V, W>(
    m: Meaning<V, W>,
    f: BcFn,
    g: BcFn,
    silent: Seq<bool>,
    regs: Map<u16, V>,
    w: W,
)
    requires
        faithful(m, silent),
        optimized_fn(f, g, silent),
        f.code@.len() <= i32::MAX,
        well_linked(f.code@, f.read_groups@.len()),
        f.read_groups@.len() + added_groups(f.code@, silent).len() <= 65536,
    ensures
        called(m, g, regs, w) == called(m, f, regs, w),
{
    assert forall|x: (V, W)| #[trigger] gives(m, g, regs, w, x) == gives(m, f, regs, w, x) by {
        lemma_fn_same(m, f, g, silent, regs, w, x);
    }
    if called(m, f, regs, w) is Some {
        let x = called(m, f, regs, w)->0;
        assert(gives(m, f, regs, w, x));
        assert(gives(m, g, regs, w, x));
        let y = called(m, g, regs, w)->0;
        assert(gives(m, g, regs, w, y));
        results_are_unique(m, g, regs, w, x, y);
    } else if called(m, g, regs, w) is Some {
        let y = called(m, g, regs, w)->0;
        assert(gives(m, g, regs, w, y));
        assert(gives(m, f, regs, w, y));
    }
}

/// Instructions mean the same in a module and in the module that it is optimized to.
proof fn lemma_nested_same<V, W>(
    dev: Device<V, W>,
    before: BcModule,
    t: EffectTable,
    after: BcModule,
    depth: nat,
)
    requires
        is_optimized(before, t, after),
        addressable(before),
        links_well(before, silent_calls(before.functions@, t)),
        runs_faithfully(dev, before.functions@, silent_calls(before.functions@, t)),
    ensures
        nested(dev, after.functions@, depth) == nested(dev, before.functions@, depth),
    decreases depth,
{
    let (fs, gs) = (before.functions@, after.functions@);
    let silent = silent_calls(fs, t);
    let (m, n) = (nested(dev, fs, depth), nested(dev, gs, depth));
    if depth > 0 {
        let inner = nested(dev, fs, (depth - 1) as nat);
        lemma_nested_same(dev, before, t, after, (depth - 1) as nat);
        lemma_nested_faithful(dev, fs, silent, (depth - 1) as nat);
        assert forall|i: Instr, regs: Map<u16, V>, w: W| #[trigger] (n.act)(i, regs, w) == (m.act)(i, regs, w) by {
            match i {
                Instr::Call { dst, fn_idx, args_start, n_args } => {
                    let k = fn_idx as int;
                    if k < fs.len() {
                        assert(optimized_fn(fs[k], gs[k], silent));
                        lemma_called_same(inner, fs[k], gs[k], silent, (dev.enter)(i, regs), w);
                    }
                },
                _ => {},
            }
        }
        assert(n.act =~= m.act);
    }
}

/// Optimizing a module keeps what its functions do: whatever the machine is, as long
/// as it keeps to what is said of the instructions, a function of the optimized
/// module ends with a result and leaves a world behind exactly where the function of
/// the module did, calls of other functions of the module included.
pub proof fn optimizing_keeps_what_a_module_does<V, W>(
    dev: Device<V, W>,
    before: BcModule,
    t: EffectTable,
    after: BcModule,
    depth: nat,
    k: int,
    regs: Map<u16, V>,
    w: W,
    x: (V, W),
)
    requires
        is_optimized(before, t, after),
        addressable(before),
        links_well(before, silent_calls(before.functions@, t)),
        runs_faithfully(dev, before.functions@, silent_calls(before.functions@, t)),
        0 <= k < before.functions@.len(),
    ensures
        gives(nested(dev, after.functions@, depth), after.functions@[k], regs, w, x) == gives(
            nested(dev, before.functions@, depth),
            before.functions@[k],
            regs,
            w,
            x,
        ),
{
    let (fs, gs) = (before.functions@, after.functions@);
    let silent = silent_calls(fs, t);
    lemma_nested_same(dev, before, t, after, depth);
    lemma_nested_faithful(dev, fs, silent, depth);
    assert(optimized_fn(fs[k], gs[k], silent));
    lemma_fn_same(nested(dev, fs, depth), fs[k], gs[k], silent, regs, w, x);
}

/// Building a module keeps what the compiled functions do: as
/// [`optimizing_keeps_what_a_module_does`], for code that comes from a source. Its
/// jumps are in place, so all that is asked of it is that it is no longer than jumps
/// can reach and that its batches can be numbered.
pub proof fn building_keeps_what_a_module_does<V, W>(
    dev: Device<V, W>,
    s: SourceView,
    defaults: Seq<Seq<u8>>,
    before: BcModule,
    t: EffectTable,
    after: BcModule,
    depth: nat,
    k: int,
    regs: Map<u16, V>,
    w: W,
    x: (V, W),
)
    requires
        compiles_source(s, defaults, Ok(before)),
        is_optimized(before, t, after),
        addressable(before),
        forall|j: int|
            0 <= j < before.functions@.len() ==> added_groups(
                (#[trigger] before.functions@[j]).code@,
                silent_calls(before.functions@, t),
            ).len() <= 65536,
        runs_faithfully(dev, before.functions@, silent_calls(before.functions@, t)),
        0 <= k < before.functions@.len(),
    ensures
        gives(nested(dev, after.functions@, depth), after.functions@[k], regs, w, x) == gives(
            nested(dev, before.functions@, depth),
            before.functions@[k],
            regs,
            w,
            x,
        ),
{
    let silent = silent_calls(before.functions@, t);
    assert forall|j: int| 0 <= j < before.functions@.len() implies ({
        let f = #[trigger] before.functions@[j];
        well_linked(f.code@, f.read_groups@.len()) && f.read_groups@.len() + added_groups(f.code@, silent).len()
            <= 65536
    }) by {
        let f = before.functions@[j];
        let (code, paths) = fns_code(s, 0, seq![], seq![], 0)->Ok_0;
        assert(is_compiled(s.module.functions@[j], code[j], f));
        assert(is_framed(f));
    }
    optimizing_keeps_what_a_module_does(dev, before, t, after, depth, k, regs, w, x);
}

} // verus!
