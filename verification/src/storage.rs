//! Where cells stand in the database, and which commits to them count.
//!
//! The key of a cell is the namespace of its organisation in eight bytes, then the
//! cell key in sixteen, each most significant byte first. Cells of two namespaces
//! never share a key. A namespace is 64 bits of a hash of the organisation's name, so
//! nothing here says that two organisations have two namespaces.

use vstd::prelude::*;
use vstd::utf8::encode_utf8;
use crate::bytes::{be_bytes, lemma_be_bytes_len, lemma_be_round_trip, lemma_pow256, push_all, push_be};
use crate::hashing::{child, child_key};
use crate::server::CommitResult;

verus! {

/// The key prefix of an organisation.
pub type NamespaceId = u64;

pub const NAMESPACE_PREFIX_LEN: usize = 8;

pub const CELL_KEY_LEN: usize = 16;

pub const FULL_KEY_LEN: usize = 24;

/// The database key of a cell.
pub open spec fn full_key(ns: u64, cell: u128) -> Seq<u8> {
    be_bytes(ns as nat, 8) + be_bytes(cell as nat, 16)
}

/// The database key of a cell.
pub fn encode_key(ns: NamespaceId, cell: u128) -> (r: [u8; 24])
    ensures
        r@ == full_key(ns, cell),
{
    let mut b: Vec<u8> = Vec::new();
    push_be(&mut b, ns as u128, NAMESPACE_PREFIX_LEN);
    push_be(&mut b, cell, CELL_KEY_LEN);
    proof {
        lemma_be_bytes_len(ns as nat, 8);
        lemma_be_bytes_len(cell as nat, 16);
        assert(b@ =~= full_key(ns, cell));
    }
    let mut out: [u8; 24] = [0; 24];
    let mut i: usize = 0;
    while i < FULL_KEY_LEN
        invariant
            i <= 24,
            b@.len() == 24,
            forall|k: int| 0 <= k < i ==> out@[k] == b@[k],
        decreases 24 - i,
    {
        out[i] = b[i];
        i = i + 1;
    }
    assert(out@ =~= b@);
    out
}

/// The database keys of cells, in their order.
pub fn encode_keys(ns: NamespaceId, cells: &[u128]) -> (r: Vec<[u8; 24]>)
    ensures
        r@.len() == cells@.len(),
        forall|i: int| 0 <= i < r@.len() ==> (#[trigger] r@[i])@ == full_key(ns, cells@[i]),
{
    let mut r: Vec<[u8; 24]> = Vec::new();
    let mut i: usize = 0;
    while i < cells.len()
        invariant
            i <= cells@.len(),
            r@.len() == i,
            forall|j: int| 0 <= j < i ==> (#[trigger] r@[j])@ == full_key(ns, cells@[j]),
        decreases cells@.len() - i,
    {
        r.push(encode_key(ns, cells[i]));
        i = i + 1;
    }
    r
}

/// The namespace of an organisation: the low half of the hash of its name.
pub open spec fn namespace_of(org: Seq<char>) -> u64 {
    (child_key(0, encode_utf8(org)) % 0x1_0000_0000_0000_0000) as u64
}

/// The namespace of an organisation.
pub fn ns_for(org: &str) -> (r: NamespaceId)
    ensures
        r == namespace_of(org@),
{
    let h: u128 = child(0, org.as_bytes());
    (h % 0x1_0000_0000_0000_0000) as u64
}

/// What a run of a program read, and what it wants written.
#[derive(Debug)]
pub struct Commit {
    /// The cells that were read, each with what it held.
    pub reads: Vec<(u128, Option<Vec<u8>>)>,
    pub writes: Vec<(u128, Vec<u8>)>,
}

/// Cells and what they hold; a later entry counts over an earlier one of its key.
pub open spec fn cells_view(s: Seq<(u128, Vec<u8>)>) -> Seq<(u128, Seq<u8>)> {
    Seq::new(s.len(), |i: int| (s[i].0, s[i].1@))
}

/// What a cell holds, if it is there.
pub open spec fn cell_in(s: Seq<(u128, Seq<u8>)>, key: u128) -> Option<Seq<u8>>
    decreases s.len(),
{
    if s.len() == 0 {
        None
    } else if s.last().0 == key {
        Some(s.last().1)
    } else {
        cell_in(s.drop_last(), key)
    }
}

pub open spec fn read_view(r: Option<Vec<u8>>) -> Option<Seq<u8>> {
    match r {
        Some(v) => Some(v@),
        None => None,
    }
}

/// Whether all cells that a commit read still hold what it read.
pub open spec fn reads_hold(s: Seq<(u128, Seq<u8>)>, c: Commit) -> bool {
    forall|i: int|
        0 <= i < c.reads@.len() ==> read_view((#[trigger] c.reads@[i]).1) == cell_in(s, c.reads@[i].0)
}

/// What the first `n` commits come to, one after another, on cells that hold `found`:
/// whether each of them counts, and what those that do write.
pub open spec fn judged(found: Seq<(u128, Seq<u8>)>, jobs: Seq<Commit>, n: nat) -> (
    Seq<CommitResult>,
    Seq<(u128, Seq<u8>)>,
)
    decreases n,
    when n <= jobs.len()
{
    if n == 0 {
        (seq![], seq![])
    } else {
        let (results, written) = judged(found, jobs, (n - 1) as nat);
        if reads_hold(found + written, jobs[n - 1]) {
            (results.push(CommitResult::Committed), written + cells_view(jobs[n - 1].writes@))
        } else {
            (results.push(CommitResult::Conflict), written)
        }
    }
}

#[verifier::loop_isolation(false)]
fn same_bytes(a: &Vec<u8>, b: &Vec<u8>) -> (r: bool)
    ensures
        r == (a@ == b@),
{
    let n: usize = a.len();
    if n != b.len() {
        return false;
    }
    let mut i: usize = 0;
    while i < n
        invariant
            i <= n == a@.len() == b@.len(),
            forall|j: int| 0 <= j < i ==> a@[j] == b@[j],
        decreases n - i,
    {
        if a[i] != b[i] {
            return false;
        }
        i = i + 1;
    }
    assert(a@ =~= b@);
    true
}

/// What a cell holds under the writes so far, or else as it was found.
fn find_cell<'a>(found: &'a Vec<(u128, Vec<u8>)>, written: &'a Vec<(u128, Vec<u8>)>, key: u128) -> (r: Option<
    &'a Vec<u8>,
>)
    ensures
        match r {
            Some(v) => cell_in(cells_view(found@) + cells_view(written@), key) == Some(v@),
            None => cell_in(cells_view(found@) + cells_view(written@), key) is None,
        },
{
    let ghost all = cells_view(found@) + cells_view(written@);
    let mut i: usize = written.len();
    assert(all.take(found@.len() + i as int) =~= all);
    while i > 0
        invariant
            i <= written@.len(),
            all == cells_view(found@) + cells_view(written@),
            cell_in(all, key) == cell_in(all.take(found@.len() + i), key),
        decreases i,
    {
        i = i - 1;
        assert(all.take(found@.len() + i + 1).drop_last() =~= all.take(found@.len() + i));
        assert(all.take(found@.len() + i + 1).last() == cells_view(written@)[i as int]);
        if written[i].0 == key {
            return Some(&written[i].1);
        }
    }
    let mut j: usize = found.len();
    while j > 0
        invariant
            j <= found@.len(),
            all == cells_view(found@) + cells_view(written@),
            cell_in(all, key) == cell_in(all.take(j as int), key),
        decreases j,
    {
        j = j - 1;
        assert(all.take(j + 1).drop_last() =~= all.take(j as int));
        assert(all.take(j + 1).last() == cells_view(found@)[j as int]);
        if found[j].0 == key {
            return Some(&found[j].1);
        }
    }
    None
}

/// Whether all cells that a commit read still hold what it read.
fn check_reads(found: &Vec<(u128, Vec<u8>)>, written: &Vec<(u128, Vec<u8>)>, c: &Commit) -> (r: bool)
    ensures
        r == reads_hold(cells_view(found@) + cells_view(written@), *c),
{
    let ghost all = cells_view(found@) + cells_view(written@);
    let mut i: usize = 0;
    while i < c.reads.len()
        invariant
            i <= c.reads@.len(),
            all == cells_view(found@) + cells_view(written@),
            forall|j: int|
                0 <= j < i ==> read_view((#[trigger] c.reads@[j]).1) == cell_in(all, c.reads@[j].0),
        decreases c.reads@.len() - i,
    {
        let (key, read) = &c.reads[i];
        let ok = match (read, find_cell(found, written, *key)) {
            (Some(a), Some(b)) => same_bytes(a, b),
            (None, None) => true,
            _ => false,
        };
        if !ok {
            assert(read_view(c.reads@[i as int].1) != cell_in(all, c.reads@[i as int].0));
            return false;
        }
        i = i + 1;
    }
    true
}

/// Judges commits one after another: each against the cells as they were found,
/// under what the commits before it wrote. Gives the results, and what is to be
/// written for those that count, in their order.
#[verifier::loop_isolation(false)]
pub fn judge_commits(found: &Vec<(u128, Vec<u8>)>, jobs: &Vec<Commit>) -> (r: (
    Vec<CommitResult>,
    Vec<(u128, Vec<u8>)>,
))
    ensures
        r.0@ == judged(cells_view(found@), jobs@, jobs@.len()).0,
        cells_view(r.1@) == judged(cells_view(found@), jobs@, jobs@.len()).1,
{
    let mut results: Vec<CommitResult> = Vec::new();
    let mut written: Vec<(u128, Vec<u8>)> = Vec::new();
    let mut i: usize = 0;
    assert(cells_view(written@) =~= seq![]);
    while i < jobs.len()
        invariant
            i <= jobs@.len(),
            results@ == judged(cells_view(found@), jobs@, i as nat).0,
            cells_view(written@) == judged(cells_view(found@), jobs@, i as nat).1,
        decreases jobs@.len() - i,
    {
        if check_reads(found, &written, &jobs[i]) {
            results.push(CommitResult::Committed);
            let writes = &jobs[i].writes;
            let ghost before = cells_view(written@);
            let mut j: usize = 0;
            assert(before + cells_view(writes@).take(0) =~= before);
            while j < writes.len()
                invariant
                    j <= writes@.len(),
                    cells_view(written@) == before + cells_view(writes@).take(j as int),
                decreases writes@.len() - j,
            {
                let ghost prev = cells_view(written@);
                let mut bytes: Vec<u8> = Vec::new();
                push_all(&mut bytes, writes[j].1.as_slice());
                assert(bytes@ =~= writes@[j as int].1@);
                written.push((writes[j].0, bytes));
                assert(cells_view(written@) =~= prev.push((writes@[j as int].0, writes@[j as int].1@)));
                assert(cells_view(written@) =~= before + cells_view(writes@).take(j + 1));
                j = j + 1;
            }
            assert(cells_view(writes@).take(j as int) =~= cells_view(writes@));
        } else {
            results.push(CommitResult::Conflict);
        }
        i = i + 1;
    }
    (results, written)
}

/// A commit that read a cell before an earlier one of the batch wrote something else
/// to it conflicts.
pub proof fn stale_reads_conflict(found: Seq<(u128, Seq<u8>)>, jobs: Seq<Commit>, n: nat, i: int)
    requires
        n < jobs.len(),
        0 <= i < jobs[n as int].reads@.len(),
        read_view(jobs[n as int].reads@[i].1) != cell_in(
            found + judged(found, jobs, n).1,
            jobs[n as int].reads@[i].0,
        ),
    ensures
        judged(found, jobs, n + 1).0.last() == CommitResult::Conflict,
        judged(found, jobs, n + 1).1 == judged(found, jobs, n).1,
{
}

/// Every commit of a batch gets a result, and a result does not depend on the commits
/// behind it.
pub proof fn results_are_settled_in_order(found: Seq<(u128, Seq<u8>)>, jobs: Seq<Commit>, n: nat, m: nat)
    requires
        n <= m <= jobs.len(),
    ensures
        judged(found, jobs, m).0.len() == m,
        judged(found, jobs, m).0.take(n as int) == judged(found, jobs, n).0,
    decreases m,
{
    if n < m {
        results_are_settled_in_order(found, jobs, n, (m - 1) as nat);
        assert(judged(found, jobs, m).0.take(n as int) =~= judged(found, jobs, (m - 1) as nat).0.take(n as int));
    } else if m > 0 {
        results_are_settled_in_order(found, jobs, (m - 1) as nat, (m - 1) as nat);
        assert(judged(found, jobs, m).0.take(m as int) =~= judged(found, jobs, m).0);
    } else {
        assert(judged(found, jobs, 0).0.take(0) =~= judged(found, jobs, 0).0);
    }
}

/// What a database holds in a cell, if it is there.
pub open spec fn held(db: Map<u128, Seq<u8>>, key: u128) -> Option<Seq<u8>> {
    if db.dom().contains(key) {
        Some(db[key])
    } else {
        None
    }
}

/// Whether `after` is what a database `db` becomes by writes: a cell that is written
/// holds what the last write to it says, and every other cell what it held.
pub open spec fn becomes(db: Map<u128, Seq<u8>>, writes: Seq<(u128, Seq<u8>)>, after: Map<u128, Seq<u8>>) -> bool {
    &&& forall|j: int|
        0 <= j < writes.len() && (forall|l: int| j < l < writes.len() ==> (#[trigger] writes[l]).0 != writes[j].0)
            ==> held(after, (#[trigger] writes[j]).0) == Some(writes[j].1)
    &&& forall|key: u128|
        (forall|j: int| 0 <= j < writes.len() ==> (#[trigger] writes[j]).0 != key) ==> #[trigger] held(after, key)
            == held(db, key)
}

/// Whether a database holds, in each cell that a commit read, what it read.
pub open spec fn agrees(db: Map<u128, Seq<u8>>, c: Commit) -> bool {
    forall|i: int| 0 <= i < c.reads@.len() ==> read_view((#[trigger] c.reads@[i]).1) == held(db, c.reads@[i].0)
}

/// Whether a commit leads from one database to another: with its writes if the
/// database holds what it read, and else with none.
pub open spec fn leads(db: Map<u128, Seq<u8>>, c: Commit, after: Map<u128, Seq<u8>>) -> bool {
    if agrees(db, c) {
        becomes(db, cells_view(c.writes@), after)
    } else {
        after == db
    }
}

/// The last entry of a key counts.
proof fn lemma_last_entry(s: Seq<(u128, Seq<u8>)>, j: int)
    requires
        0 <= j < s.len(),
        forall|l: int| j < l < s.len() ==> (#[trigger] s[l]).0 != s[j].0,
    ensures
        cell_in(s, s[j].0) == Some(s[j].1),
    decreases s.len(),
{
    if j < s.len() - 1 {
        let key = s[j].0;
        assert(s[s.len() - 1].0 != key);
        let d = s.drop_last();
        assert(d[j] == s[j]);
        assert forall|l: int| j < l < d.len() implies (#[trigger] d[l]).0 != d[j].0 by {
            assert(s[l].0 != s[j].0);
        }
        lemma_last_entry(d, j);
    }
}

/// Entries of other keys do not count.
proof fn lemma_other_entries(a: Seq<(u128, Seq<u8>)>, b: Seq<(u128, Seq<u8>)>, key: u128)
    requires
        forall|j: int| 0 <= j < b.len() ==> (#[trigger] b[j]).0 != key,
    ensures
        cell_in(a + b, key) == cell_in(a, key),
    decreases b.len(),
{
    if b.len() == 0 {
        assert(a + b =~= a);
    } else {
        let d = b.drop_last();
        assert((a + b).drop_last() =~= a + d);
        assert((a + b).last() == b[b.len() - 1]);
        assert forall|j: int| 0 <= j < d.len() implies (#[trigger] d[j]).0 != key by {
            assert(b[j].0 != key);
        }
        lemma_other_entries(a, d, key);
    }
}

/// The last entry of a key, if there is any.
proof fn lemma_some_last(s: Seq<(u128, Seq<u8>)>, key: u128) -> (j: int)
    ensures
        -1 <= j < s.len(),
        j >= 0 ==> s[j].0 == key,
        forall|l: int| j < l < s.len() ==> (#[trigger] s[l]).0 != key,
    decreases s.len(),
{
    if s.len() == 0 {
        -1
    } else if s.last().0 == key {
        s.len() - 1
    } else {
        let d = s.drop_last();
        let j = lemma_some_last(d, key);
        assert forall|l: int| j < l < s.len() implies (#[trigger] s[l]).0 != key by {
            if l < d.len() {
                assert(d[l].0 != key);
            }
        }
        j
    }
}

/// Looking a cell up in the entries is looking it up in what the database became.
proof fn lemma_becomes(
    a: Seq<(u128, Seq<u8>)>,
    b: Seq<(u128, Seq<u8>)>,
    db: Map<u128, Seq<u8>>,
    after: Map<u128, Seq<u8>>,
    key: u128,
)
    requires
        forall|k: u128| #[trigger] held(db, k) == cell_in(a, k),
        becomes(db, b, after),
    ensures
        held(after, key) == cell_in(a + b, key),
{
    let j = lemma_some_last(b, key);
    if j < 0 {
        lemma_other_entries(a, b, key);
        assert(held(after, key) == held(db, key));
    } else {
        let s = a + b;
        let i = a.len() + j;
        assert(s[i] == b[j]);
        assert forall|l: int| i < l < s.len() implies (#[trigger] s[l]).0 != s[i].0 by {
            assert(b[l - a.len()].0 != key);
        }
        lemma_last_entry(s, i);
        assert(held(after, b[j].0) == Some(b[j].1));
    }
}

/// What the entries of both databases say shows that one becomes the other.
proof fn lemma_entries_become(
    a: Seq<(u128, Seq<u8>)>,
    b: Seq<(u128, Seq<u8>)>,
    db: Map<u128, Seq<u8>>,
    after: Map<u128, Seq<u8>>,
)
    requires
        forall|k: u128| #[trigger] held(db, k) == cell_in(a, k),
        forall|k: u128| #[trigger] held(after, k) == cell_in(a + b, k),
    ensures
        becomes(db, b, after),
{
    let s = a + b;
    assert forall|j: int|
        0 <= j < b.len() && (forall|l: int| j < l < b.len() ==> (#[trigger] b[l]).0 != b[j].0) implies held(
        after,
        (#[trigger] b[j]).0,
    ) == Some(b[j].1) by {
        let i = a.len() + j;
        assert(s[i] == b[j]);
        assert forall|l: int| i < l < s.len() implies (#[trigger] s[l]).0 != s[i].0 by {
            assert(b[l - a.len()].0 != b[j].0);
        }
        lemma_last_entry(s, i);
    }
    assert forall|key: u128|
        (forall|j: int| 0 <= j < b.len() ==> (#[trigger] b[j]).0 != key) implies #[trigger] held(after, key) == held(
        db,
        key,
    ) by {
        lemma_other_entries(a, b, key);
    }
}

/// Commits count as if they came one at a time: for the databases that they lead
/// through, one after another from what was found, a commit counts if and only if the
/// database that it meets holds what it read, and what is written leads from the first
/// database to the last.
pub proof fn commits_count_one_after_another(
    found: Seq<(u128, Seq<u8>)>,
    jobs: Seq<Commit>,
    dbs: Seq<Map<u128, Seq<u8>>>,
    n: nat,
)
    requires
        n <= jobs.len(),
        dbs.len() == jobs.len() + 1,
        becomes(Map::empty(), found, dbs[0]),
        forall|i: int| 0 <= i < jobs.len() ==> leads(dbs[i], #[trigger] jobs[i], dbs[i + 1]),
    ensures
        judged(found, jobs, n).0.len() == n,
        forall|i: int|
            0 <= i < n ==> (#[trigger] judged(found, jobs, n).0[i]) == if agrees(dbs[i], jobs[i]) {
                CommitResult::Committed
            } else {
                CommitResult::Conflict
            },
        becomes(dbs[0], judged(found, jobs, n).1, dbs[n as int]),
        forall|key: u128| #[trigger] held(dbs[n as int], key) == cell_in(found + judged(found, jobs, n).1, key),
    decreases n,
{
    if n == 0 {
        assert forall|k: u128| #[trigger] held(Map::<u128, Seq<u8>>::empty(), k) == cell_in(seq![], k) by {}
        assert forall|key: u128| #[trigger] held(dbs[0], key) == cell_in(found + judged(found, jobs, n).1, key) by {
            lemma_becomes(seq![], found, Map::empty(), dbs[0], key);
            assert(seq![] + found =~= found);
            assert(found + judged(found, jobs, n).1 =~= found);
        }
    } else {
        let m = (n - 1) as nat;
        commits_count_one_after_another(found, jobs, dbs, m);
        let w = judged(found, jobs, m).1;
        let c = jobs[n - 1];
        let x = cells_view(c.writes@);
        let db = dbs[n - 1];
        let after = dbs[n as int];
        assert(leads(db, c, dbs[(n - 1) + 1]));
        assert(agrees(db, c) == reads_hold(found + w, c)) by {
            if agrees(db, c) {
                assert forall|i: int| 0 <= i < c.reads@.len() implies read_view((#[trigger] c.reads@[i]).1)
                    == cell_in(found + w, c.reads@[i].0) by {
                    assert(held(db, c.reads@[i].0) == cell_in(found + w, c.reads@[i].0));
                }
            }
            if reads_hold(found + w, c) {
                assert forall|i: int| 0 <= i < c.reads@.len() implies read_view((#[trigger] c.reads@[i]).1)
                    == held(db, c.reads@[i].0) by {
                    assert(held(db, c.reads@[i].0) == cell_in(found + w, c.reads@[i].0));
                }
            }
        }
        assert forall|i: int| 0 <= i < n implies (#[trigger] judged(found, jobs, n).0[i]) == if agrees(
            dbs[i],
            jobs[i],
        ) {
            CommitResult::Committed
        } else {
            CommitResult::Conflict
        } by {
            if i < n - 1 {
                assert(judged(found, jobs, n).0[i] == judged(found, jobs, m).0[i]);
            }
        }
        if agrees(db, c) {
            let s = w + x;
            assert(found + s =~= (found + w) + x);
            assert forall|key: u128| #[trigger] held(after, key) == cell_in(found + s, key) by {
                lemma_becomes(found + w, x, db, after, key);
            }
            commits_count_one_after_another(found, jobs, dbs, 0);
            assert(found + judged(found, jobs, 0).1 =~= found);
            lemma_entries_become(found, s, dbs[0], after);
        }
    }
}

/// What a commit writes goes behind what those before it write, as it is and in its
/// order, if it counts; of one that does not, nothing is written.
pub proof fn counted_writes_are_appended(found: Seq<(u128, Seq<u8>)>, jobs: Seq<Commit>, n: nat)
    requires
        n < jobs.len(),
    ensures
        match judged(found, jobs, n + 1).0.last() {
            CommitResult::Committed => judged(found, jobs, n + 1).1 == judged(found, jobs, n).1 + cells_view(
                jobs[n as int].writes@,
            ),
            CommitResult::Conflict => judged(found, jobs, n + 1).1 == judged(found, jobs, n).1,
        },
{
}

/// A commit whose reads all equal what the cells hold, under what the commits before
/// it write, counts.
pub proof fn fresh_reads_count(found: Seq<(u128, Seq<u8>)>, jobs: Seq<Commit>, n: nat)
    requires
        n < jobs.len(),
        forall|i: int|
            0 <= i < jobs[n as int].reads@.len() ==> read_view((#[trigger] jobs[n as int].reads@[i]).1) == cell_in(
                found + judged(found, jobs, n).1,
                jobs[n as int].reads@[i].0,
            ),
    ensures
        judged(found, jobs, n + 1).0.last() == CommitResult::Committed,
{
}

/// What is written comes from the commits: each entry is one of a commit's writes.
proof fn lemma_written_by(found: Seq<(u128, Seq<u8>)>, jobs: Seq<Commit>, n: nat, j: int)
    requires
        n <= jobs.len(),
        0 <= j < judged(found, jobs, n).1.len(),
    ensures
        exists|k: int, l: int|
            0 <= k < n && 0 <= l < jobs[k].writes@.len() && (#[trigger] jobs[k].writes@[l]).0 == judged(
                found,
                jobs,
                n,
            ).1[j].0,
    decreases n,
{
    let m = (n - 1) as nat;
    let w = judged(found, jobs, m).1;
    if j < w.len() {
        lemma_written_by(found, jobs, m, j);
    } else {
        assert(cells_view(jobs[n - 1].writes@)[j - w.len()].0 == jobs[n - 1].writes@[j - w.len()].0);
    }
}

/// A commit that reads no cell that a commit before it writes gets the result that it
/// would get alone.
pub proof fn commits_apart_do_not_meet(found: Seq<(u128, Seq<u8>)>, jobs: Seq<Commit>, n: nat)
    requires
        n < jobs.len(),
        forall|i: int, k: int, l: int|
            #![trigger jobs[n as int].reads@[i], jobs[k].writes@[l]]
            0 <= i < jobs[n as int].reads@.len() && 0 <= k < n && 0 <= l < jobs[k].writes@.len()
                ==> jobs[n as int].reads@[i].0 != jobs[k].writes@[l].0,
    ensures
        judged(found, jobs, n + 1).0.last() == judged(found, seq![jobs[n as int]], 1).0.last(),
{
    let c = jobs[n as int];
    let w = judged(found, jobs, n).1;
    let alone = seq![c];
    assert(judged(found, alone, 0).1 =~= seq![]);
    assert(found + judged(found, alone, 0).1 =~= found);
    assert forall|i: int| 0 <= i < c.reads@.len() implies cell_in(found + w, (#[trigger] c.reads@[i]).0) == cell_in(
        found,
        c.reads@[i].0,
    ) by {
        let key = c.reads@[i].0;
        assert forall|j: int| 0 <= j < w.len() implies (#[trigger] w[j]).0 != key by {
            lemma_written_by(found, jobs, n, j);
        }
        lemma_other_entries(found, w, key);
    }
    assert(alone[0] == c);
    assert(judged(found, alone, 1).0 == judged(found, alone, 0).0.push(
        if reads_hold(found, c) {
            CommitResult::Committed
        } else {
            CommitResult::Conflict
        },
    ));
    if reads_hold(found, c) {
        assert forall|i: int| 0 <= i < c.reads@.len() implies read_view((#[trigger] c.reads@[i]).1) == cell_in(
            found + w,
            c.reads@[i].0,
        ) by {}
    }
    if reads_hold(found + w, c) {
        assert forall|i: int| 0 <= i < c.reads@.len() implies read_view((#[trigger] c.reads@[i]).1) == cell_in(
            found,
            c.reads@[i].0,
        ) by {}
    }
}

/// Judging a batch is judging its first part, and then the rest on what that left.
pub proof fn batches_can_be_split(found: Seq<(u128, Seq<u8>)>, jobs: Seq<Commit>, n: nat, m: nat)
    requires
        n + m <= jobs.len(),
    ensures
        judged(found, jobs, n + m).0 == judged(found, jobs, n).0 + judged(
            found + judged(found, jobs, n).1,
            jobs.skip(n as int),
            m,
        ).0,
        judged(found, jobs, n + m).1 == judged(found, jobs, n).1 + judged(
            found + judged(found, jobs, n).1,
            jobs.skip(n as int),
            m,
        ).1,
    decreases m,
{
    let w = judged(found, jobs, n).1;
    let rest = jobs.skip(n as int);
    if m == 0 {
        assert(judged(found, jobs, n).0 + judged(found + w, rest, 0).0 =~= judged(found, jobs, n).0);
        assert(w + judged(found + w, rest, 0).1 =~= w);
    } else {
        let k = (m - 1) as nat;
        batches_can_be_split(found, jobs, n, k);
        let x = judged(found + w, rest, k);
        assert(rest[m - 1] == jobs[n + m - 1]);
        assert((found + w) + x.1 =~= found + (w + x.1));
        assert((n + m - 1) as nat == n + k);
        let c = jobs[n + m - 1];
        assert(judged(found, jobs, n + m).0 =~= judged(found, jobs, n).0 + judged(found + w, rest, m).0);
        assert(judged(found, jobs, n + m).1 =~= w + judged(found + w, rest, m).1);
    }
}

/// Cells of different namespaces, and different cells of one namespace, never share
/// a database key.
pub proof fn keys_tell_cells_apart(ns1: u64, cell1: u128, ns2: u64, cell2: u128)
    requires
        full_key(ns1, cell1) == full_key(ns2, cell2),
    ensures
        ns1 == ns2,
        cell1 == cell2,
{
    lemma_pow256();
    lemma_be_bytes_len(ns1 as nat, 8);
    lemma_be_bytes_len(ns2 as nat, 8);
    lemma_be_bytes_len(cell1 as nat, 16);
    lemma_be_bytes_len(cell2 as nat, 16);
    assert(full_key(ns1, cell1).take(8) =~= be_bytes(ns1 as nat, 8));
    assert(full_key(ns2, cell2).take(8) =~= be_bytes(ns2 as nat, 8));
    assert(full_key(ns1, cell1).skip(8) =~= be_bytes(cell1 as nat, 16));
    assert(full_key(ns2, cell2).skip(8) =~= be_bytes(cell2 as nat, 16));
    lemma_be_round_trip(ns1 as nat, 8);
    lemma_be_round_trip(ns2 as nat, 8);
    lemma_be_round_trip(cell1 as nat, 16);
    lemma_be_round_trip(cell2 as nat, 16);
}

} // verus!
