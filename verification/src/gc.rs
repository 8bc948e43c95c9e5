//! Garbage collection for tree-spread persistent collections.
//!
//! A write to a persistent map or vector makes fresh node cells along the path that
//! it changed. The cells of the old path linger until they are swept. Only the
//! candidates are swept: cells that some write made as nodes.

use vstd::prelude::*;
use std::collections::{HashMap, HashSet};
use crate::ast::Type;

verus! {

broadcast use vstd::std_specs::hash::group_hash_axioms;

/// A store of cells in memory.
#[derive(Debug)]
pub struct InMemoryKv {
    pub data: HashMap<u128, Vec<u8>>,
}

#[derive(Debug)]
pub struct GcReport {
    /// Number of cells in the final live set.
    pub kept: usize,
    /// Number of node-cell candidates removed from the store.
    pub swept: usize,
}

/// Whether the cells that are reachable from a state of this type are kept with it.
pub open spec fn is_walked(t: Type) -> bool {
    match t {
        Type::PMap { key, value } => true,
        Type::PVec { elem } => true,
        _ => false,
    }
}

/// The cells that the first `n` states keep: their own, and those that are reachable
/// from a persistent map or vector.
pub open spec fn live_cells(states: Seq<(u128, Type)>, reached: Seq<Vec<u128>>, n: nat) -> Set<u128>
    decreases n,
{
    if n == 0 || n > states.len() {
        Set::empty()
    } else {
        let own = live_cells(states, reached, (n - 1) as nat).insert(states[n - 1].0);
        if is_walked(states[n - 1].1) && n <= reached.len() {
            own.union(reached[n - 1]@.to_set())
        } else {
            own
        }
    }
}

/// The candidates among the first `n` that are stored and not live.
pub open spec fn dead_cells(candidates: Seq<u128>, stored: Set<u128>, live: Set<u128>, n: nat) -> Set<u128>
    decreases n,
{
    if n == 0 || n > candidates.len() {
        Set::empty()
    } else {
        let c = candidates[n - 1];
        let d = dead_cells(candidates, stored, live, (n - 1) as nat);
        if stored.contains(c) && !live.contains(c) {
            d.insert(c)
        } else {
            d
        }
    }
}

proof fn lemma_dead_cells(candidates: Seq<u128>, stored: Set<u128>, live: Set<u128>, n: nat)
    requires
        n <= candidates.len(),
    ensures
        dead_cells(candidates, stored, live, n).finite(),
        dead_cells(candidates, stored, live, n).len() <= n,
        forall|x: u128| #[trigger]
            dead_cells(candidates, stored, live, n).contains(x) <==> stored.contains(x) && !live.contains(x)
                && exists|i: int| 0 <= i < n && #[trigger] candidates[i] == x,
    decreases n,
{
    if n > 0 {
        lemma_dead_cells(candidates, stored, live, (n - 1) as nat);
        let c = candidates[n - 1];
        let d = dead_cells(candidates, stored, live, (n - 1) as nat);
        assert forall|x: u128| #[trigger]
            dead_cells(candidates, stored, live, n).contains(x) <==> stored.contains(x) && !live.contains(x)
                && exists|i: int| 0 <= i < n && #[trigger] candidates[i] == x by {
            if x == c {
                assert(candidates[n - 1] == x);
            } else {
                if d.contains(x) {
                    let i = choose|i: int| 0 <= i < n - 1 && #[trigger] candidates[i] == x;
                    assert(0 <= i < n && candidates[i] == x);
                }
            }
        }
    }
}

fn live_set(states: &Vec<(u128, Type)>, reached: &Vec<Vec<u128>>) -> (r: HashSet<u128>)
    ensures
        r@ == live_cells(states@, reached@, states@.len()),
{
    let mut live: HashSet<u128> = HashSet::new();
    assert(live@ =~= Set::<u128>::empty());
    let mut i: usize = 0;
    while i < states.len()
        invariant
            i <= states@.len(),
            live@ == live_cells(states@, reached@, i as nat),
        decreases states@.len() - i,
    {
        let ghost before = live@;
        live.insert(states[i].0);
        let walked = match &states[i].1 {
            Type::PMap { key: _, value: _ } => true,
            Type::PVec { elem: _ } => true,
            _ => false,
        };
        if walked && i < reached.len() {
            let ghost own = live@;
            let cells = &reached[i];
            let mut j: usize = 0;
            assert(live@ =~= own.union(cells@.take(0).to_set()));
            while j < cells.len()
                invariant
                    j <= cells@.len(),
                    live@ == own.union(cells@.take(j as int).to_set()),
                decreases cells@.len() - j,
            {
                live.insert(cells[j]);
                proof {
                    lemma_take_one_more(cells@, j as int);
                    assert(live@ =~= own.union(cells@.take(j as int + 1).to_set()));
                }
                j = j + 1;
            }
            assert(cells@.take(cells@.len() as int) =~= cells@);
        }
        i = i + 1;
    }
    live
}

proof fn lemma_take_one_more(s: Seq<u128>, j: int)
    requires
        0 <= j < s.len(),
    ensures
        s.take(j + 1).to_set() == s.take(j).to_set().insert(s[j]),
{
    let a = s.take(j + 1).to_set();
    let b = s.take(j).to_set().insert(s[j]);
    assert forall|x: u128| a.contains(x) <==> b.contains(x) by {
        if a.contains(x) {
            let k = choose|k: int| 0 <= k < j + 1 && #[trigger] s.take(j + 1)[k] == x;
            if k < j {
                assert(s.take(j)[k] == x);
            }
        }
        if b.contains(x) {
            if x == s[j] {
                assert(s.take(j + 1)[j] == x);
            } else {
                let k = choose|k: int| 0 <= k < j && #[trigger] s.take(j)[k] == x;
                assert(s.take(j + 1)[k] == x);
            }
        }
    }
    assert(a =~= b);
}

/// Removes the candidates that no live state keeps. `reached` holds, for each live
/// state, the cells that are reachable from its root.
pub fn sweep(
    live_states: &Vec<(u128, Type)>,
    reached: &Vec<Vec<u128>>,
    candidates: &Vec<u128>,
    kv: &mut InMemoryKv,
) -> (r: GcReport)
    ensures
        ({
            let live = live_cells(live_states@, reached@, live_states@.len());
            let dead = dead_cells(candidates@, old(kv).data@.dom(), live, candidates@.len());
            &&& final(kv).data@ == old(kv).data@.remove_keys(dead)
            &&& r.kept == live.len()
            &&& r.swept == dead.len()
        }),
{
    let live = live_set(live_states, reached);
    let ghost keep = live@;
    let ghost before = kv.data@;
    let mut swept: usize = 0;
    let mut i: usize = 0;
    assert(kv.data@ =~= before.remove_keys(Set::empty()));
    while i < candidates.len()
        invariant
            i <= candidates@.len(),
            live@ == keep,
            swept <= i,
            swept == dead_cells(candidates@, before.dom(), keep, i as nat).len(),
            kv.data@ == before.remove_keys(dead_cells(candidates@, before.dom(), keep, i as nat)),
        decreases candidates@.len() - i,
    {
        proof {
            lemma_dead_cells(candidates@, before.dom(), keep, i as nat);
        }
        let ghost d = dead_cells(candidates@, before.dom(), keep, i as nat);
        let c: u128 = candidates[i];
        if !live.contains(&c) {
            match kv.data.remove(&c) {
                Some(_) => {
                    swept = swept + 1;
                    assert(!d.contains(c));
                    assert(kv.data@ =~= before.remove_keys(d.insert(c)));
                },
                None => {
                    assert(before.dom().contains(c) ==> d.contains(c));
                    assert(d.contains(c) ==> d.insert(c) =~= d);
                    assert(kv.data@ =~= before.remove_keys(d));
                },
            }
        }
        i = i + 1;
    }
    GcReport { kept: live.len(), swept }
}

/// A sweep removes no cell that a live state keeps, and none that is no candidate.
pub proof fn sweeping_spares_the_rest(
    live_states: Seq<(u128, Type)>,
    reached: Seq<Vec<u128>>,
    candidates: Seq<u128>,
    stored: Map<u128, Vec<u8>>,
    cell: u128,
)
    requires
        stored.contains_key(cell),
        live_cells(live_states, reached, live_states.len()).contains(cell) || !candidates.contains(cell),
    ensures
        ({
            let live = live_cells(live_states, reached, live_states.len());
            let after = stored.remove_keys(dead_cells(candidates, stored.dom(), live, candidates.len()));
            after.contains_key(cell) && after[cell] == stored[cell]
        }),
{
    let live = live_cells(live_states, reached, live_states.len());
    lemma_dead_cells(candidates, stored.dom(), live, candidates.len());
}

/// The cell of every live state is live.
pub proof fn state_cells_are_live(live_states: Seq<(u128, Type)>, reached: Seq<Vec<u128>>, n: nat, i: int)
    requires
        0 <= i < n <= live_states.len(),
    ensures
        live_cells(live_states, reached, n).contains(live_states[i].0),
    decreases n,
{
    if i < n - 1 {
        state_cells_are_live(live_states, reached, (n - 1) as nat, i);
    }
}

} // verus!
