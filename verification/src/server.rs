//! The decisions of the HTTP service: its settings, its counters, its errors, the
//! storage of artifacts, the retries of commits, and its replies.

use vstd::prelude::*;
use vstd::utf8::encode_utf8;
use crate::artifact::{decode, parse_artifact, Artifact, ModuleModels};
use crate::bytes::{be_bytes, be_val, lemma_be_round_trip, lemma_pow256, push_be};
use crate::codec::{decode_error, models};
use crate::engine::{compiled, EmittedEvent, Engine, ExecOutcome, QueryOutcome, TypedModule};
use crate::error::{render, Error, ErrorView};
use crate::hashing::{child, child_key};
use crate::hexes::{hex_encode, hex_text};
use crate::host::HostError;
use crate::numbers::{digit_in, digits_value, parse_unsigned, unsigned_in};
use crate::text::{concat2, concat3, concat_num, decimal, hex2, nibble_char, same, text};
use crate::value::{views, Value};
use crate::wire::{list_wires, value_to_json, values_to_json, wire_of, wire_views, Wire, WireView};

verus! {

/// How often a transaction is executed before a conflict is given up on.
pub const COMMIT_MAX_ATTEMPTS: usize = 5;

/// The most commits that one write carries.
pub const MAX_BATCH: usize = 64;

/// How many commits may wait for a namespace.
pub const CHANNEL_CAP: usize = 1024;

/// The most bytes that the body of a request may have.
pub const MAX_BODY: usize = 8388608;

/// The settings of a server.
#[derive(Debug, Clone)]
pub struct Config {
    pub listen: String,
    pub data_dir: String,
    pub fuel: u64,
}

/// A text, or another where it is missing.
pub open spec fn text_or(s: Option<String>, other: Seq<char>) -> Seq<char> {
    match s {
        Some(t) => t@,
        None => other,
    }
}

/// The fuel that a text asks for; two million where it asks for none.
pub open spec fn fuel_in(s: Option<String>) -> nat {
    match s {
        Some(t) => match unsigned_in(t@, 10, u64::MAX as nat) {
            Some(n) => n,
            None => 2_000_000,
        },
        None => 2_000_000,
    }
}

impl Config {
    /// The settings that the environment gives.
    pub fn from_vars(listen: Option<String>, data_dir: Option<String>, fuel: Option<String>) -> (r: Config)
        ensures
            r.listen@ == text_or(listen, "0.0.0.0:8080"@),
            r.data_dir@ == text_or(data_dir, "/data"@),
            r.fuel == fuel_in(fuel),
    {
        let ghost asked = fuel;
        let n: u64 = match fuel {
            Some(t) => match parse_unsigned(t.as_str(), 10, u64::MAX as u128) {
                Some(n) => n as u64,
                None => 2_000_000,
            },
            None => 2_000_000,
        };
        let listen = match listen {
            Some(t) => t,
            None => text("0.0.0.0:8080"),
        };
        let data_dir = match data_dir {
            Some(t) => t,
            None => text("/data"),
        };
        Config { listen, data_dir, fuel: n }
    }
}

/// The sum of two counters, which wrap around.
pub open spec fn counted(a: u64, b: u64) -> u64 {
    ((a + b) % 0x1_0000_0000_0000_0000) as u64
}

fn count_up(a: u64, b: u64) -> (r: u64)
    ensures
        r == counted(a, b),
{
    let s: u128 = a as u128 + b as u128;
    (s % 0x1_0000_0000_0000_0000) as u64
}

/// A stage of a transaction whose time is counted.
#[derive(Debug, Clone, Copy, PartialEq, Eq, Structural)]
pub enum Stage {
    ResolveDeps,
    CompileTx,
    ExecuteTx,
    Commit,
}

/// Times and counts over all transactions, in nanoseconds.
#[derive(Debug, Clone, Copy, PartialEq, Eq, Structural)]
pub struct TxStats {
    pub count: u64,
    pub total_ns: u64,
    pub resolve_deps_ns: u64,
    pub compile_tx_ns: u64,
    pub execute_tx_ns: u64,
    pub commit_ns: u64,
    pub retries: u64,
}

/// All counters at zero.
pub open spec fn no_stats() -> TxStats {
    TxStats {
        count: 0,
        total_ns: 0,
        resolve_deps_ns: 0,
        compile_tx_ns: 0,
        execute_tx_ns: 0,
        commit_ns: 0,
        retries: 0,
    }
}

impl Default for TxStats {
    fn default() -> (r: TxStats)
        ensures
            r == no_stats(),
    {
        TxStats {
            count: 0,
            total_ns: 0,
            resolve_deps_ns: 0,
            compile_tx_ns: 0,
            execute_tx_ns: 0,
            commit_ns: 0,
            retries: 0,
        }
    }
}

/// The mean of a time over a count; zero over none.
pub open spec fn mean_of(ns: int, count: u64) -> int {
    if count == 0 {
        0
    } else {
        ns / (count as int)
    }
}

/// The mean of a time over a count.
pub fn mean(ns: u64, count: u64) -> (r: u64)
    ensures
        r == mean_of(ns as int, count),
{
    if count == 0 {
        0
    } else {
        ns / count
    }
}

/// The time that no named stage took.
pub open spec fn other_ns(s: TxStats) -> int {
    let named = s.resolve_deps_ns + s.compile_tx_ns + s.execute_tx_ns + s.commit_ns;
    if s.total_ns > named {
        s.total_ns - named
    } else {
        0
    }
}

/// The mean times of a transaction, in nanoseconds, and what was left over in all.
#[derive(Debug, Clone, Copy, PartialEq, Eq, Structural)]
pub struct StatsReport {
    pub count: u64,
    pub retries: u64,
    pub total: u64,
    pub resolve_deps: u64,
    pub compile_tx: u64,
    pub execute_tx: u64,
    pub commit: u64,
    pub other: u64,
    pub other_total: u64,
}

impl TxStats {
    /// Counts the time of a stage.
    pub fn note(&mut self, stage: Stage, ns: u64)
        ensures
            *final(self) == match stage {
                Stage::ResolveDeps => TxStats {
                    resolve_deps_ns: counted(old(self).resolve_deps_ns, ns),
                    ..*old(self)
                },
                Stage::CompileTx => TxStats {
                    compile_tx_ns: counted(old(self).compile_tx_ns, ns),
                    ..*old(self)
                },
                Stage::ExecuteTx => TxStats {
                    execute_tx_ns: counted(old(self).execute_tx_ns, ns),
                    ..*old(self)
                },
                Stage::Commit => TxStats {
                    commit_ns: counted(old(self).commit_ns, ns),
                    ..*old(self)
                },
            },
    {
        match stage {
            Stage::ResolveDeps => {
                self.resolve_deps_ns = count_up(self.resolve_deps_ns, ns);
            },
            Stage::CompileTx => {
                self.compile_tx_ns = count_up(self.compile_tx_ns, ns);
            },
            Stage::ExecuteTx => {
                self.execute_tx_ns = count_up(self.execute_tx_ns, ns);
            },
            Stage::Commit => {
                self.commit_ns = count_up(self.commit_ns, ns);
            },
        }
    }

    /// Counts an attempt: the first is no retry.
    pub fn note_attempt(&mut self, attempt: usize)
        ensures
            *final(self) == if attempt > 0 {
                TxStats { retries: counted(old(self).retries, 1), ..*old(self) }
            } else {
                *old(self)
            },
    {
        if attempt > 0 {
            self.retries = count_up(self.retries, 1);
        }
    }

    /// Counts a committed transaction and the time that it took.
    pub fn note_done(&mut self, total_ns: u64)
        ensures
            *final(self) == (TxStats {
                count: counted(old(self).count, 1),
                total_ns: counted(old(self).total_ns, total_ns),
                ..*old(self)
            }),
    {
        self.count = count_up(self.count, 1);
        self.total_ns = count_up(self.total_ns, total_ns);
    }

    /// Sets all counters to zero.
    pub fn reset(&mut self)
        ensures
            *final(self) == no_stats(),
    {
        *self = TxStats::default();
    }

    /// The mean times.
    pub fn report(&self) -> (r: StatsReport)
        ensures
            r.count == self.count,
            r.retries == self.retries,
            r.total == mean_of(self.total_ns as int, self.count),
            r.resolve_deps == mean_of(self.resolve_deps_ns as int, self.count),
            r.compile_tx == mean_of(self.compile_tx_ns as int, self.count),
            r.execute_tx == mean_of(self.execute_tx_ns as int, self.count),
            r.commit == mean_of(self.commit_ns as int, self.count),
            r.other == mean_of(other_ns(*self), self.count),
            r.other_total == other_ns(*self),
    {
        let named: u128 = self.resolve_deps_ns as u128 + self.compile_tx_ns as u128 + self.execute_tx_ns as u128
            + self.commit_ns as u128;
        let total: u128 = self.total_ns as u128;
        let other: u64 = if total > named {
            (total - named) as u64
        } else {
            0
        };
        StatsReport {
            count: self.count,
            retries: self.retries,
            total: mean(self.total_ns, self.count),
            resolve_deps: mean(self.resolve_deps_ns, self.count),
            compile_tx: mean(self.compile_tx_ns, self.count),
            execute_tx: mean(self.execute_tx_ns, self.count),
            commit: mean(self.commit_ns, self.count),
            other: mean(other, self.count),
            other_total: other,
        }
    }
}

/// Why a request failed.
#[derive(Debug)]
pub enum ServerError {
    BadRequest(String),
    NotFound,
    CommitConflict,
    Rend(Error),
    /// The database failed, with its message.
    RocksDb(String),
    Other(String),
}

/// The model of a [`ServerError`].
pub enum ServerErrorView {
    BadRequest(Seq<char>),
    NotFound,
    CommitConflict,
    Rend(ErrorView),
    RocksDb(Seq<char>),
    Other(Seq<char>),
}

impl View for ServerError {
    type V = ServerErrorView;

    open spec fn view(&self) -> ServerErrorView {
        match *self {
            ServerError::BadRequest(s) => ServerErrorView::BadRequest(s@),
            ServerError::NotFound => ServerErrorView::NotFound,
            ServerError::CommitConflict => ServerErrorView::CommitConflict,
            ServerError::Rend(e) => ServerErrorView::Rend(e@),
            ServerError::RocksDb(s) => ServerErrorView::RocksDb(s@),
            ServerError::Other(s) => ServerErrorView::Other(s@),
        }
    }
}

/// The text of a conflict that is given up on.
pub open spec fn conflict_text() -> Seq<char> {
    "commit failed after 5 retries due to OCC conflicts"@
}

/// The HTTP status of an error.
pub open spec fn status_of(e: ServerErrorView) -> u16 {
    match e {
        ServerErrorView::BadRequest(_) => 400,
        ServerErrorView::NotFound => 404,
        ServerErrorView::CommitConflict => 409,
        ServerErrorView::Rend(_) => 422,
        ServerErrorView::RocksDb(_) => 500,
        ServerErrorView::Other(_) => 500,
    }
}

/// What an HTTP reply says of an error.
pub open spec fn reply_text(e: ServerErrorView) -> Seq<char> {
    match e {
        ServerErrorView::BadRequest(s) => s,
        ServerErrorView::NotFound => "not found"@,
        ServerErrorView::CommitConflict => conflict_text(),
        ServerErrorView::Rend(x) => render(x),
        ServerErrorView::RocksDb(s) => s,
        ServerErrorView::Other(s) => s,
    }
}

/// The printed form of an error, which frames carry.
pub open spec fn printed(e: ServerErrorView) -> Seq<char> {
    match e {
        ServerErrorView::BadRequest(s) => "bad request: "@ + s,
        ServerErrorView::Rend(x) => "rend error: "@ + render(x),
        ServerErrorView::RocksDb(s) => "rocksdb error: "@ + s,
        _ => reply_text(e),
    }
}

impl ServerError {
    /// The HTTP status.
    pub fn status(&self) -> (r: u16)
        ensures
            r == status_of(self@),
    {
        match self {
            ServerError::BadRequest(_) => 400,
            ServerError::NotFound => 404,
            ServerError::CommitConflict => 409,
            ServerError::Rend(_) => 422,
            ServerError::RocksDb(_) => 500,
            ServerError::Other(_) => 500,
        }
    }

    /// What an HTTP reply says.
    pub fn message(&self) -> (r: String)
        ensures
            r@ == reply_text(self@),
    {
        match self {
            ServerError::BadRequest(s) => s.clone(),
            ServerError::NotFound => text("not found"),
            ServerError::CommitConflict => text("commit failed after 5 retries due to OCC conflicts"),
            ServerError::Rend(e) => e.to_string(),
            ServerError::RocksDb(s) => s.clone(),
            ServerError::Other(s) => s.clone(),
        }
    }

    /// The printed form.
    pub fn to_string(&self) -> (r: String)
        ensures
            r@ == printed(self@),
    {
        let m = self.message();
        match self {
            ServerError::BadRequest(_) => concat2("bad request: ", m.as_str()),
            ServerError::Rend(_) => concat2("rend error: ", m.as_str()),
            ServerError::RocksDb(_) => concat2("rocksdb error: ", m.as_str()),
            _ => m,
        }
    }
}

/// What separates artifacts from other cells.
pub const ARTIFACT_NS_TAG: u128 = 0x4152_5449_4641_4354_4152_5449_4641_4354;

/// The cell of an artifact.
pub open spec fn cell_of(hash: u128) -> u128 {
    child_key(ARTIFACT_NS_TAG, be_bytes(hash as nat, 16))
}

/// The cell of an artifact.
pub fn artifact_cell(hash: u128) -> (r: u128)
    ensures
        r == cell_of(hash),
{
    let mut b: Vec<u8> = Vec::new();
    push_be(&mut b, hash, 16);
    assert(b@ =~= be_bytes(hash as nat, 16));
    child(ARTIFACT_NS_TAG, b.as_slice())
}

/// The text of a hash: 32 hexadecimal digits.
pub open spec fn hash_digits(hash: u128) -> Seq<char> {
    hex_text(be_bytes(hash as nat, 16))
}

/// The text of a hash.
pub fn hash_text(hash: u128) -> (r: String)
    ensures
        r@ == hash_digits(hash),
{
    let mut b: Vec<u8> = Vec::new();
    push_be(&mut b, hash, 16);
    assert(b@ =~= be_bytes(hash as nat, 16));
    hex_encode(b.as_slice())
}

/// The hash that a text spells.
pub open spec fn hash_in(s: Seq<char>) -> Result<u128, ServerErrorView> {
    let n = encode_utf8(s).len();
    if n != 32 {
        Err(ServerErrorView::BadRequest("artifact hash must be 32 hex chars, got "@ + decimal(n)))
    } else {
        match unsigned_in(s, 16, u128::MAX as nat) {
            Some(v) => Ok(v as u128),
            None => Err(ServerErrorView::BadRequest("invalid hex hash: "@ + s)),
        }
    }
}

/// Reads a hash.
pub fn parse_hash(s: &str) -> (r: Result<u128, ServerError>)
    ensures
        match hash_in(s@) {
            Ok(h) => r == Ok::<u128, ServerError>(h),
            Err(x) => r matches Err(e) && e@ == x,
        },
{
    let n: usize = s.as_bytes().len();
    if n != 32 {
        let m = concat_num("artifact hash must be 32 hex chars, got ", n as u128, "");
        proof {
            reveal_strlit("");
            assert(m@ =~= "artifact hash must be 32 hex chars, got "@ + decimal(n as nat));
        }
        return Err(ServerError::BadRequest(m));
    }
    match parse_unsigned(s, 16, u128::MAX) {
        Some(h) => Ok(h),
        None => Err(ServerError::BadRequest(concat2("invalid hex hash: ", s))),
    }
}

#[verifier::spinoff_prover]
#[verifier::rlimit(60)]
proof fn lemma_hex_digits(s: Seq<u8>)
    ensures
        hex_text(s).len() == 2 * s.len(),
        digits_value(hex_text(s), 16) == Some(be_val(s)),
        vstd::utf8::is_ascii_chars(hex_text(s)),
        s.len() > 0 ==> hex_text(s)[0] != '+',
    decreases s.len(),
{
    if s.len() > 0 {
        let p = hex_text(s.drop_last());
        let b = s.last();
        lemma_hex_digits(s.drop_last());
        let h = nibble_char(b as nat / 16);
        let l = nibble_char(b as nat % 16);
        assert(digit_in(h, 16) == Some(b as nat / 16));
        assert(digit_in(l, 16) == Some(b as nat % 16));
        assert(hex2(b) =~= seq![h, l]);
        let t = hex_text(s);
        assert(t =~= p.push(h).push(l));
        assert(t.drop_last() =~= p.push(h));
        assert(p.push(h).drop_last() =~= p);
        assert(digits_value(p.push(h), 16) == Some(be_val(s.drop_last()) * 16 + b as nat / 16));
        assert forall|i: int| 0 <= i < t.len() implies '\0' <= #[trigger] t[i] <= '\u{7f}' by {
            if i < p.len() {
                assert(t[i] == p[i]);
            }
        }
        assert(t[0] == if p.len() > 0 { p[0] } else { h });
    }
}

/// Reading the text of a hash gives the hash.
pub proof fn hash_is_read_back(hash: u128)
    ensures
        hash_in(hash_digits(hash)) == Ok::<u128, ServerErrorView>(hash),
{
    let b = be_bytes(hash as nat, 16);
    lemma_pow256();
    lemma_be_round_trip(hash as nat, 16);
    lemma_hex_digits(b);
    vstd::utf8::is_ascii_chars_encode_utf8(hash_digits(hash));
}

/// What a cell holds where an artifact should stand.
#[derive(Debug)]
pub enum StoredCell {
    Missing,
    /// Something that is no stored value of bytes.
    Corrupt,
    /// A stored value of another kind.
    WrongTag,
    Bytes(Vec<u8>),
}

/// What looking up an artifact by the text of its hash gives: its hash and bytes,
/// where it is there.
pub open spec fn found(s: Seq<char>, cell: StoredCell) -> Result<Option<(u128, Seq<u8>)>, ServerErrorView> {
    match hash_in(s) {
        Err(e) => Err(e),
        Ok(h) => match cell {
            StoredCell::Missing => Ok(None),
            StoredCell::Corrupt => Err(ServerErrorView::BadRequest("corrupt artifact in storage"@)),
            StoredCell::WrongTag => Err(ServerErrorView::BadRequest("artifact cell has wrong tag"@)),
            StoredCell::Bytes(b) => match parse_artifact(b@) {
                Ok(_) => Ok(Some((h, b@))),
                Err(m) => Err(
                    ServerErrorView::BadRequest("artifact decode failed: "@ + render(decode_error(m))),
                ),
            },
        },
    }
}

/// Whether an artifact is the one with a hash and bytes.
pub open spec fn is_artifact(a: Artifact, hash: u128, bytes: Seq<u8>) -> bool {
    &&& a.content_hash == hash
    &&& a.bytes@ == bytes
    &&& parse_artifact(bytes) == Ok::<ModuleModels, Seq<char>>(models(a.modules@))
}

/// Takes an artifact out of what its cell holds.
pub fn read_artifact(hex_hash: &str, cell: StoredCell) -> (r: Result<Option<Artifact>, ServerError>)
    ensures
        match found(hex_hash@, cell) {
            Ok(Some((h, b))) => r matches Ok(Some(a)) && is_artifact(a, h, b),
            Ok(None) => r matches Ok(None),
            Err(x) => r matches Err(e) && e@ == x,
        },
{
    let hash: u128 = match parse_hash(hex_hash) {
        Ok(h) => h,
        Err(e) => return Err(e),
    };
    match cell {
        StoredCell::Missing => Ok(None),
        StoredCell::Corrupt => Err(ServerError::BadRequest(text("corrupt artifact in storage"))),
        StoredCell::WrongTag => Err(ServerError::BadRequest(text("artifact cell has wrong tag"))),
        StoredCell::Bytes(bytes) => match decode(bytes.as_slice()) {
            Ok(modules) => Ok(Some(Artifact { content_hash: hash, bytes, modules })),
            Err(e) => Err(
                ServerError::BadRequest(concat2("artifact decode failed: ", e.to_string().as_str())),
            ),
        },
    }
}

/// What looking up an artifact that must be there gives.
pub open spec fn required(s: Seq<char>, cell: StoredCell, missing: ServerErrorView) -> Result<
    (u128, Seq<u8>),
    ServerErrorView,
> {
    match found(s, cell) {
        Err(e) => Err(e),
        Ok(None) => Err(missing),
        Ok(Some(p)) => Ok(p),
    }
}

/// Takes an artifact that is deployed or fetched out of what its cell holds.
pub fn need_artifact(hex_hash: &str, cell: StoredCell) -> (r: Result<Artifact, ServerError>)
    ensures
        match required(hex_hash@, cell, ServerErrorView::NotFound) {
            Ok((h, b)) => r matches Ok(a) && is_artifact(a, h, b),
            Err(x) => r matches Err(e) && e@ == x,
        },
{
    match read_artifact(hex_hash, cell) {
        Ok(Some(a)) => Ok(a),
        Ok(None) => Err(ServerError::NotFound),
        Err(e) => Err(e),
    }
}

/// What looking up a dependency gives.
pub open spec fn dependency(s: Seq<char>, cell: StoredCell) -> Result<(u128, Seq<u8>), ServerErrorView> {
    required(s, cell, ServerErrorView::BadRequest("dep artifact "@ + s + " not found"@))
}

/// Whether an artifact is what looking up a dependency gives.
pub open spec fn is_dependency(a: Artifact, s: Seq<char>, cell: StoredCell) -> bool {
    match dependency(s, cell) {
        Ok((h, b)) => is_artifact(a, h, b),
        Err(_) => false,
    }
}

/// The first dependency from the `i`-th on that is not there.
pub open spec fn first_missing(hashes: Seq<String>, cells: Seq<StoredCell>, i: nat) -> Option<int>
    decreases hashes.len() - i,
{
    if i >= hashes.len() {
        None
    } else if dependency(hashes[i as int]@, cells[i as int]) is Err {
        Some(i as int)
    } else {
        first_missing(hashes, cells, i + 1)
    }
}

/// Takes the dependencies of a transaction out of what their cells hold; the first
/// that is not there decides the error.
pub fn resolve_deps(hashes: &Vec<String>, cells: Vec<StoredCell>) -> (r: Result<Vec<Artifact>, ServerError>)
    requires
        cells@.len() == hashes@.len(),
    ensures
        match first_missing(hashes@, cells@, 0) {
            Some(k) => r matches Err(e) && Err::<(u128, Seq<u8>), ServerErrorView>(e@) == dependency(
                hashes@[k]@,
                cells@[k],
            ),
            None => r matches Ok(v) && v@.len() == hashes@.len() && forall|i: int|
                0 <= i < v@.len() ==> is_dependency(#[trigger] v@[i], hashes@[i]@, cells@[i]),
        },
{
    let ghost all = cells@;
    let mut left = cells;
    let mut out: Vec<Artifact> = Vec::new();
    let n: usize = hashes.len();
    let mut i: usize = 0;
    while i < n
        invariant
            i <= n == hashes@.len() == all.len(),
            all == cells@,
            left@.len() == n,
            forall|j: int| i <= j < n ==> #[trigger] left@[j] == all[j],
            out@.len() == i,
            first_missing(hashes@, all, 0) == first_missing(hashes@, all, i as nat),
            forall|j: int|
                0 <= j < i ==> is_dependency(#[trigger] out@[j], hashes@[j]@, all[j]),
        decreases n - i,
    {
        let mut cell = StoredCell::Missing;
        left.set_and_swap(i, &mut cell);
        assert(cell == all[i as int]);
        let h: &str = hashes[i].as_str();
        assert(h@ == hashes@[i as int]@);
        match read_artifact(h, cell) {
            Ok(Some(a)) => {
                assert(is_dependency(a, h@, all[i as int]));
                out.push(a);
            },
            Ok(None) => {
                let m = concat3("dep artifact ", h, " not found");
                assert(dependency(h@, all[i as int]) == Err::<(u128, Seq<u8>), ServerErrorView>(
                    ServerErrorView::BadRequest(m@),
                ));
                return Err(ServerError::BadRequest(m));
            },
            Err(e) => {
                assert(dependency(h@, all[i as int]) == Err::<(u128, Seq<u8>), ServerErrorView>(e@));
                return Err(e);
            },
        }
        i = i + 1;
    }
    Ok(out)
}

/// An artifact that was stored is read back by the text of its hash.
pub proof fn stored_artifacts_are_read_back(a: Artifact, cell: StoredCell)
    requires
        a.coherent(),
        cell matches StoredCell::Bytes(b) && b@ == a.bytes@,
    ensures
        found(hash_digits(a.content_hash), cell) == Ok::<Option<(u128, Seq<u8>)>, ServerErrorView>(
            Some((a.content_hash, a.bytes@)),
        ),
        is_artifact(a, a.content_hash, a.bytes@),
{
    hash_is_read_back(a.content_hash);
}

/// The body of a request to compile.
#[derive(Debug)]
pub struct CompileBody {
    pub source: String,
}

/// The reply to a request to compile.
#[derive(Debug)]
pub struct CompileResponse {
    pub hash: String,
    /// The bytes of the artifact as hexadecimal digits.
    pub bytes: String,
    pub modules: Vec<String>,
}

/// The body of a request to deploy.
#[derive(Debug)]
pub struct DeployBody {
    pub hash: String,
}

/// The body of a transaction or a query.
#[derive(Debug)]
pub struct TxBody {
    pub tx_source: String,
    pub deps: Vec<String>,
}

/// Whether a reply describes an artifact.
pub open spec fn describes(c: CompileResponse, a: Artifact) -> bool {
    &&& c.hash@ == hash_digits(a.content_hash)
    &&& c.bytes@ == hex_text(a.bytes@)
    &&& c.modules@.len() == a.modules@.len()
    &&& forall|i: int| 0 <= i < a.modules@.len() ==> (#[trigger] c.modules@[i])@ == a.modules@[i].name@
}

/// The reply that describes an artifact.
pub fn compile_response(a: &Artifact) -> (r: CompileResponse)
    ensures
        describes(r, *a),
{
    let mut modules: Vec<String> = Vec::new();
    let mut i: usize = 0;
    while i < a.modules.len()
        invariant
            i <= a.modules@.len(),
            modules@.len() == i,
            forall|j: int| 0 <= j < i ==> (#[trigger] modules@[j])@ == a.modules@[j].name@,
        decreases a.modules@.len() - i,
    {
        modules.push(a.modules[i].name.clone());
        i = i + 1;
    }
    CompileResponse { hash: hash_text(a.content_hash), bytes: hex_encode(a.bytes.as_slice()), modules }
}

/// A reply, and the bytes to be stored and their cell.
#[derive(Debug)]
pub struct Compiled {
    pub response: CompileResponse,
    pub cell: u128,
    pub bytes: Vec<u8>,
}

/// Compiles a module: the reply, and what is to be stored where.
pub fn do_compile<F: Fn(&[Value]) -> Result<Value, HostError>>(engine: &Engine<F>, t: TypedModule) -> (r: Result<
    Compiled,
    ServerError,
>)
    ensures
        exists|c: Result<Artifact, Error>| #[trigger]
            compiled(engine.host.funcs@, t, c) && match c {
                Err(x) => r matches Err(e) && e@ == ServerErrorView::Rend(x@),
                Ok(a) => r matches Ok(d) && describes(d.response, a) && d.cell == cell_of(a.content_hash)
                    && d.bytes@ == a.bytes@,
            },
{
    let ghost t0 = t;
    let c = engine.compile(t);
    assert(compiled(engine.host.funcs@, t0, c));
    match c {
        Err(e) => Err(ServerError::Rend(e)),
        Ok(a) => {
            let response = compile_response(&a);
            let cell: u128 = artifact_cell(a.content_hash);
            Ok(Compiled { response, cell, bytes: a.bytes })
        },
    }
}

/// What the database said of a commit.
#[derive(Debug, Clone, Copy, PartialEq, Eq, Structural)]
pub enum CommitResult {
    Committed,
    Conflict,
}

/// What follows an attempt to commit.
#[derive(Debug, Clone, Copy, PartialEq, Eq, Structural)]
pub enum CommitStep {
    /// The request is answered.
    Reply,
    /// The program is executed again.
    Retry,
    /// The request fails with a conflict.
    GiveUp,
}

/// What follows the attempt after `attempt` earlier ones.
pub open spec fn step_after(attempt: nat, result: CommitResult) -> CommitStep {
    match result {
        CommitResult::Committed => CommitStep::Reply,
        CommitResult::Conflict => if attempt + 1 < COMMIT_MAX_ATTEMPTS {
            CommitStep::Retry
        } else {
            CommitStep::GiveUp
        },
    }
}

/// Decides what follows the attempt after `attempt` earlier ones.
pub fn commit_step(attempt: usize, result: CommitResult) -> (r: CommitStep)
    ensures
        r == step_after(attempt as nat, result),
{
    match result {
        CommitResult::Committed => CommitStep::Reply,
        CommitResult::Conflict => {
            if attempt < COMMIT_MAX_ATTEMPTS - 1 {
                CommitStep::Retry
            } else {
                CommitStep::GiveUp
            }
        },
    }
}

/// What becomes of a request whose attempts go as given, from the `i`-th on, and
/// after how many attempts.
pub open spec fn fate(results: Seq<CommitResult>, i: nat) -> (CommitStep, nat)
    decreases results.len() - i,
{
    if i >= results.len() {
        (CommitStep::Retry, i)
    } else {
        match step_after(i, results[i as int]) {
            CommitStep::Retry => fate(results, i + 1),
            s => (s, i + 1),
        }
    }
}

/// A request is executed at most five times: whatever the database says, it is then
/// answered or has failed, and it is answered just where one of the five attempts
/// was committed.
pub proof fn attempts_are_bounded(results: Seq<CommitResult>)
    requires
        results.len() >= COMMIT_MAX_ATTEMPTS,
    ensures
        fate(results, 0).1 <= COMMIT_MAX_ATTEMPTS,
        fate(results, 0).0 == CommitStep::Reply || fate(results, 0).0 == CommitStep::GiveUp,
        fate(results, 0).0 == CommitStep::Reply <==> exists|k: int|
            0 <= k < COMMIT_MAX_ATTEMPTS && #[trigger] results[k] == CommitResult::Committed,
{
    reveal_with_fuel(fate, 6);
    assert(results[0] == CommitResult::Committed || results[0] == CommitResult::Conflict);
    assert(results[1] == CommitResult::Committed || results[1] == CommitResult::Conflict);
    assert(results[2] == CommitResult::Committed || results[2] == CommitResult::Conflict);
    assert(results[3] == CommitResult::Committed || results[3] == CommitResult::Conflict);
    assert(results[4] == CommitResult::Committed || results[4] == CommitResult::Conflict);
}

/// The reply to a deployment.
#[derive(Debug)]
pub struct DeployResponse {
    pub result: Wire,
    pub writes_applied: usize,
}

/// An event in a reply.
#[derive(Debug)]
pub struct EventRecord {
    pub module: String,
    pub name: String,
    pub args: Vec<Wire>,
}

/// The reply to a transaction.
#[derive(Debug)]
pub struct TxResponse {
    pub result: Wire,
    pub writes_applied: usize,
    pub events: Vec<EventRecord>,
}

/// The reply to a query.
#[derive(Debug)]
pub struct QueryResponse {
    pub result: Wire,
}

/// The reply to a committed deployment; to one that ran nothing, where there is no
/// outcome.
pub fn deploy_response(outcome: &Option<ExecOutcome>) -> (r: DeployResponse)
    ensures
        match *outcome {
            Some(o) => r.result@ == wire_of(o.result@) && r.writes_applied == o.writes@.len(),
            None => r.result@ == WireView::Null && r.writes_applied == 0,
        },
{
    match outcome {
        Some(o) => DeployResponse { result: value_to_json(&o.result), writes_applied: o.writes.len() },
        None => DeployResponse { result: Wire::Null, writes_applied: 0 },
    }
}

/// Whether a record is that of an event.
pub open spec fn records(r: EventRecord, e: EmittedEvent) -> bool {
    &&& r.module@ == e.module@
    &&& r.name@ == e.name@
    &&& wire_views(r.args@) == list_wires(views(e.args@))
}

/// The reply to a committed transaction.
pub fn tx_response(o: &ExecOutcome) -> (r: TxResponse)
    ensures
        r.result@ == wire_of(o.result@),
        r.writes_applied == o.writes@.len(),
        r.events@.len() == o.events@.len(),
        forall|i: int| 0 <= i < r.events@.len() ==> records(#[trigger] r.events@[i], o.events@[i]),
{
    let mut events: Vec<EventRecord> = Vec::new();
    let mut i: usize = 0;
    while i < o.events.len()
        invariant
            i <= o.events@.len(),
            events@.len() == i,
            forall|j: int| 0 <= j < i ==> records(#[trigger] events@[j], o.events@[j]),
        decreases o.events@.len() - i,
    {
        let e = &o.events[i];
        events.push(
            EventRecord {
                module: e.module.clone(),
                name: e.name.clone(),
                args: values_to_json(&e.args),
            },
        );
        i = i + 1;
    }
    TxResponse { result: value_to_json(&o.result), writes_applied: o.writes.len(), events }
}

/// The reply to a query.
pub fn query_response(o: &QueryOutcome) -> (r: QueryResponse)
    ensures
        r.result@ == wire_of(o.result@),
{
    QueryResponse { result: value_to_json(&o.result) }
}

/// What a frame asks for.
#[derive(Debug, Clone, Copy, PartialEq, Eq, Structural)]
pub enum FrameKind {
    Compile,
    Deploy,
    Tx,
    Query,
}

/// The name of a kind of frame.
pub open spec fn kind_text(k: FrameKind) -> Seq<char> {
    match k {
        FrameKind::Compile => "compile"@,
        FrameKind::Deploy => "deploy"@,
        FrameKind::Tx => "tx"@,
        FrameKind::Query => "query"@,
    }
}

/// Reads the kind of a frame; a kind that is none gives the message of the reply.
pub fn frame_kind(s: &str) -> (r: Result<FrameKind, String>)
    ensures
        match r {
            Ok(k) => s@ == kind_text(k),
            Err(m) => m@ == "unknown kind: "@ + s@ && forall|k: FrameKind| s@ != #[trigger] kind_text(k),
        },
{
    if same(s, "compile") {
        Ok(FrameKind::Compile)
    } else if same(s, "deploy") {
        Ok(FrameKind::Deploy)
    } else if same(s, "tx") {
        Ok(FrameKind::Tx)
    } else if same(s, "query") {
        Ok(FrameKind::Query)
    } else {
        let m = concat2("unknown kind: ", s);
        assert forall|k: FrameKind| s@ != #[trigger] kind_text(k) by {
            match k {
                FrameKind::Compile => {},
                FrameKind::Deploy => {},
                FrameKind::Tx => {},
                FrameKind::Query => {},
            }
        }
        Err(m)
    }
}

/// What a frame that is no JSON of the right shape is answered.
pub fn frame_fault(why: &str) -> (r: String)
    ensures
        r@ == "frame parse: "@ + why@,
{
    concat2("frame parse: ", why)
}

/// The error of a frame whose body has the wrong shape.
pub fn body_fault(why: &str) -> (r: ServerError)
    ensures
        r@ == ServerErrorView::BadRequest("body: "@ + why@),
{
    ServerError::BadRequest(concat2("body: ", why))
}

/// How many of the waiting commits the next write carries.
pub open spec fn batch_of(waiting: nat) -> nat {
    if waiting < MAX_BATCH {
        waiting
    } else {
        MAX_BATCH as nat
    }
}

/// How many of the waiting commits the next write carries.
pub fn batch_len(waiting: usize) -> (r: usize)
    ensures
        r == batch_of(waiting as nat),
{
    if waiting < MAX_BATCH {
        waiting
    } else {
        MAX_BATCH
    }
}

/// The answer to the `i`-th of a batch of commits: what the database said of it, or
/// that the write failed, in which case every commit of the batch is told so.
pub open spec fn answer_of(written: Result<Vec<CommitResult>, String>, i: int) -> Option<
    Result<CommitResult, Seq<char>>,
> {
    match written {
        Ok(v) => if i < v@.len() {
            Some(Ok(v@[i]))
        } else {
            None
        },
        Err(m) => Some(Err(m@)),
    }
}

/// The answers to a batch of commits, one for each; there is none where the database
/// said nothing of it.
pub fn batch_answers(jobs: usize, written: Result<Vec<CommitResult>, String>) -> (r: Vec<
    Option<Result<CommitResult, String>>,
>)
    ensures
        r@.len() == jobs,
        forall|i: int|
            0 <= i < jobs ==> match (#[trigger] r@[i], answer_of(written, i)) {
                (None, None) => true,
                (Some(Ok(a)), Some(Ok(b))) => a == b,
                (Some(Err(a)), Some(Err(b))) => a@ == b,
                _ => false,
            },
{
    let mut r: Vec<Option<Result<CommitResult, String>>> = Vec::new();
    let mut i: usize = 0;
    while i < jobs
        invariant
            i <= jobs,
            r@.len() == i,
            forall|j: int|
                0 <= j < i ==> match (#[trigger] r@[j], answer_of(written, j)) {
                    (None, None) => true,
                    (Some(Ok(a)), Some(Ok(b))) => a == b,
                    (Some(Err(a)), Some(Err(b))) => a@ == b,
                    _ => false,
                },
        decreases jobs - i,
    {
        let a: Option<Result<CommitResult, String>> = match &written {
            Ok(v) => if i < v.len() {
                Some(Ok(v[i]))
            } else {
                None
            },
            Err(m) => Some(Err(m.clone())),
        };
        r.push(a);
        i = i + 1;
    }
    r
}

/// Writing batch after batch empties the queue, each write carries at least one
/// commit, and none carries more than it may.
pub proof fn batches_empty_the_queue(waiting: nat)
    requires
        waiting > 0,
    ensures
        1 <= batch_of(waiting) <= MAX_BATCH,
        batch_of(waiting) <= waiting,
        waiting - batch_of(waiting) < waiting,
        waiting <= MAX_BATCH ==> batch_of(waiting) == waiting,
{
}

} // verus!
