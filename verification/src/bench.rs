//! The load generator: its options, its workloads, and the requests that it sends.

use vstd::prelude::*;
use crate::numbers::{parse_unsigned, unsigned_in};
use crate::text::{concat_num, decimal, push_decimal, same, text};

verus! {

/// The source of the module that the counter workloads deploy.
pub const COUNTER_MODULE: &'static str = "
    module ctr;
    state n: u64;
    entry view fn current() -> u64 { return n; }
    entry fn bump() -> u64 { n = n + 1u64; return n; }
    fn main() -> i64 { return 0; }
";

/// The source of the module that the bank workloads deploy. A transfer reads both
/// balances before it asserts or writes, so that the two reads go out together.
pub const BANK_MODULE: &'static str = "
    module bank;
    state accounts: pmap<Address, u64>;
    entry view fn balance(who: Address) -> u64 { return accounts[who]; }
    entry fn mint(to: Address, amount: u64) -> u64 {
        accounts[to] = accounts[to] + amount;
        return accounts[to];
    }
    entry fn transfer(from: Address, to: Address, amount: u64) -> u64 {
        let b_from = accounts[from];
        let b_to   = accounts[to];
        assert(b_from >= amount, \"insufficient\");
        accounts[from] = b_from - amount;
        accounts[to]   = b_to + amount;
        return accounts[to];
    }
    fn main() -> i64 { return 0; }
";

/// What is measured.
#[derive(Debug, Clone, Copy, PartialEq, Eq, Structural)]
pub enum Workload {
    Tx,
    Query,
    Transfer,
    TransferHot,
}

/// The name of a workload.
pub open spec fn workload_name(w: Workload) -> Seq<char> {
    match w {
        Workload::Tx => "tx"@,
        Workload::Query => "query"@,
        Workload::Transfer => "transfer"@,
        Workload::TransferHot => "transfer-hot"@,
    }
}

/// The workload of a name.
pub open spec fn workload_named(s: Seq<char>) -> Option<Workload> {
    if s == "tx"@ {
        Some(Workload::Tx)
    } else if s == "query"@ {
        Some(Workload::Query)
    } else if s == "transfer"@ {
        Some(Workload::Transfer)
    } else if s == "transfer-hot"@ {
        Some(Workload::TransferHot)
    } else {
        None
    }
}

/// Whether a workload moves money between accounts.
pub open spec fn on_bank(w: Workload) -> bool {
    w == Workload::Transfer || w == Workload::TransferHot
}

impl Workload {
    pub fn label(self) -> (r: &'static str)
        ensures
            r@ == workload_name(self),
    {
        match self {
            Workload::Tx => "tx",
            Workload::Query => "query",
            Workload::Transfer => "transfer",
            Workload::TransferHot => "transfer-hot",
        }
    }

    pub fn is_bank(self) -> (r: bool)
        ensures
            r == on_bank(self),
    {
        match self {
            Workload::Transfer => true,
            Workload::TransferHot => true,
            _ => false,
        }
    }

    pub fn is_query(self) -> (r: bool)
        ensures
            r == (self == Workload::Query),
    {
        match self {
            Workload::Query => true,
            _ => false,
        }
    }

    /// The kind of request that the workload sends.
    pub fn kind(self) -> (r: &'static str)
        ensures
            r@ == if self == Workload::Query {
                "query"@
            } else {
                "tx"@
            },
    {
        if self.is_query() {
            "query"
        } else {
            "tx"
        }
    }

    /// The module that the workload deploys.
    pub fn source(self) -> (r: &'static str)
        ensures
            r@ == if on_bank(self) {
                BANK_MODULE@
            } else {
                COUNTER_MODULE@
            },
    {
        if self.is_bank() {
            BANK_MODULE
        } else {
            COUNTER_MODULE
        }
    }

    /// The workload of a name.
    pub fn named(s: &str) -> (r: Option<Workload>)
        ensures
            r == workload_named(s@),
    {
        if same(s, "tx") {
            Some(Workload::Tx)
        } else if same(s, "query") {
            Some(Workload::Query)
        } else if same(s, "transfer") {
            Some(Workload::Transfer)
        } else if same(s, "transfer-hot") {
            Some(Workload::TransferHot)
        } else {
            None
        }
    }
}

/// Every workload is found by its name.
pub proof fn labels_are_read_back(w: Workload)
    ensures
        workload_named(workload_name(w)) == Some(w),
{
    reveal_strlit("tx");
    reveal_strlit("query");
    reveal_strlit("transfer");
    reveal_strlit("transfer-hot");
    assert("tx"@.len() == 2 && "query"@.len() == 5 && "transfer"@.len() == 8 && "transfer-hot"@.len() == 12);
}

/// The options of a run; times are in seconds.
#[derive(Debug, Clone)]
pub struct Args {
    pub target: String,
    pub workers: usize,
    pub duration: u64,
    pub warmup: u64,
    pub workload: Workload,
    pub shared: bool,
    pub accounts: usize,
    pub ws: bool,
    pub inflight: usize,
}

/// The model of [`Args`].
pub struct ArgsView {
    pub target: Seq<char>,
    pub workers: nat,
    pub duration: nat,
    pub warmup: nat,
    pub workload: Workload,
    pub shared: bool,
    pub accounts: nat,
    pub ws: bool,
    pub inflight: nat,
}

impl View for Args {
    type V = ArgsView;

    open spec fn view(&self) -> ArgsView {
        ArgsView {
            target: self.target@,
            workers: self.workers as nat,
            duration: self.duration as nat,
            warmup: self.warmup as nat,
            workload: self.workload,
            shared: self.shared,
            accounts: self.accounts as nat,
            ws: self.ws,
            inflight: self.inflight as nat,
        }
    }
}

/// Why there are no options to run with.
#[derive(Debug)]
pub enum ArgsError {
    /// `--target` stands last.
    NoTarget,
    /// This should be a number.
    BadNumber(String),
    UnknownWorkload(String),
    Unexpected(String),
    /// Help was asked for.
    Help,
}

/// The model of [`ArgsError`].
pub enum ArgsFault {
    NoTarget,
    BadNumber(Seq<char>),
    UnknownWorkload(Seq<char>),
    Unexpected(Seq<char>),
    Help,
}

impl View for ArgsError {
    type V = ArgsFault;

    open spec fn view(&self) -> ArgsFault {
        match *self {
            ArgsError::NoTarget => ArgsFault::NoTarget,
            ArgsError::BadNumber(s) => ArgsFault::BadNumber(s@),
            ArgsError::UnknownWorkload(s) => ArgsFault::UnknownWorkload(s@),
            ArgsError::Unexpected(s) => ArgsFault::Unexpected(s@),
            ArgsError::Help => ArgsFault::Help,
        }
    }
}

/// The options where none is given.
pub open spec fn default_args() -> ArgsView {
    ArgsView {
        target: "http://127.0.0.1:8080"@,
        workers: 8,
        duration: 10,
        warmup: 1,
        workload: Workload::Tx,
        shared: false,
        accounts: 100,
        ws: false,
        inflight: 1,
    }
}

/// The text after the `i`-th; an empty one where there is none.
pub open spec fn after(s: Seq<String>, i: nat) -> Seq<char> {
    if i + 1 < s.len() {
        s[i as int + 1]@
    } else {
        ""@
    }
}

/// An option with a number.
#[derive(Debug, Clone, Copy, PartialEq, Eq, Structural)]
pub enum Numeric {
    Workers,
    Duration,
    Warmup,
    Inflight,
    Accounts,
}

/// The option with a number of a name.
pub open spec fn numeric_named(s: Seq<char>) -> Option<Numeric> {
    if s == "--workers"@ {
        Some(Numeric::Workers)
    } else if s == "--duration"@ {
        Some(Numeric::Duration)
    } else if s == "--warmup"@ {
        Some(Numeric::Warmup)
    } else if s == "--inflight"@ {
        Some(Numeric::Inflight)
    } else if s == "--accounts"@ {
        Some(Numeric::Accounts)
    } else {
        None
    }
}

/// The largest number that an option takes.
pub open spec fn limit_of(n: Numeric) -> nat {
    match n {
        Numeric::Duration => u64::MAX as nat,
        Numeric::Warmup => u64::MAX as nat,
        _ => usize::MAX as nat,
    }
}

/// Options with one number changed.
pub open spec fn with_number(a: ArgsView, n: Numeric, v: nat) -> ArgsView {
    match n {
        Numeric::Workers => ArgsView { workers: v, ..a },
        Numeric::Duration => ArgsView { duration: v, ..a },
        Numeric::Warmup => ArgsView { warmup: v, ..a },
        Numeric::Inflight => ArgsView { inflight: v, ..a },
        Numeric::Accounts => ArgsView { accounts: v, ..a },
    }
}

/// One option, at the `i`-th text: the options after it, and how many texts it takes.
pub open spec fn option_at(s: Seq<String>, i: nat, a: ArgsView) -> Result<(ArgsView, nat), ArgsFault> {
    let name = s[i as int]@;
    match numeric_named(name) {
        Some(n) => match unsigned_in(after(s, i), 10, limit_of(n)) {
            Some(v) => Ok((with_number(a, n, v), 2)),
            None => Err(ArgsFault::BadNumber(after(s, i))),
        },
        None => if name == "--target"@ {
            if i + 1 < s.len() {
                Ok((ArgsView { target: after(s, i), ..a }, 2))
            } else {
                Err(ArgsFault::NoTarget)
            }
        } else if name == "--workload"@ {
            match workload_named(after(s, i)) {
                Some(w) => Ok((ArgsView { workload: w, ..a }, 2)),
                None => Err(ArgsFault::UnknownWorkload(after(s, i))),
            }
        } else if name == "--shared"@ {
            Ok((ArgsView { shared: true, ..a }, 1))
        } else if name == "--ws"@ {
            Ok((ArgsView { ws: true, ..a }, 1))
        } else if name == "-h"@ || name == "--help"@ {
            Err(ArgsFault::Help)
        } else {
            Err(ArgsFault::Unexpected(name))
        },
    }
}

/// The options that texts give, from the `i`-th on; a later one counts over an
/// earlier one.
pub open spec fn options_from(s: Seq<String>, i: nat, a: ArgsView) -> Result<ArgsView, ArgsFault>
    decreases (if i < s.len() { s.len() - i } else { 0 }),
{
    if i >= s.len() {
        Ok(a)
    } else {
        match option_at(s, i, a) {
            Err(e) => Err(e),
            Ok((b, n)) => if n == 0 {
                Ok(b)
            } else {
                options_from(s, i + n, b)
            },
        }
    }
}

fn find_numeric(s: &str) -> (r: Option<Numeric>)
    ensures
        r == numeric_named(s@),
{
    if same(s, "--workers") {
        Some(Numeric::Workers)
    } else if same(s, "--duration") {
        Some(Numeric::Duration)
    } else if same(s, "--warmup") {
        Some(Numeric::Warmup)
    } else if same(s, "--inflight") {
        Some(Numeric::Inflight)
    } else if same(s, "--accounts") {
        Some(Numeric::Accounts)
    } else {
        None
    }
}

fn text_after(s: &Vec<String>, i: usize) -> (r: String)
    requires
        i < s@.len(),
    ensures
        r@ == after(s@, i as nat),
{
    let last: usize = s.len() - 1;
    if i < last {
        s[i + 1].clone()
    } else {
        text("")
    }
}

fn set_number(a: &mut Args, n: Numeric, v: &str) -> (r: bool)
    ensures
        match unsigned_in(v@, 10, limit_of(n)) {
            Some(k) => r && final(a)@ == with_number(old(a)@, n, k),
            None => !r && final(a)@ == old(a)@,
        },
{
    let max: u128 = match n {
        Numeric::Duration => u64::MAX as u128,
        Numeric::Warmup => u64::MAX as u128,
        _ => usize::MAX as u128,
    };
    match parse_unsigned(v, 10, max) {
        Some(k) => {
            match n {
                Numeric::Workers => {
                    a.workers = k as usize;
                },
                Numeric::Duration => {
                    a.duration = k as u64;
                },
                Numeric::Warmup => {
                    a.warmup = k as u64;
                },
                Numeric::Inflight => {
                    a.inflight = k as usize;
                },
                Numeric::Accounts => {
                    a.accounts = k as usize;
                },
            }
            true
        },
        None => false,
    }
}

fn take_option(s: &Vec<String>, i: usize, a: &mut Args) -> (r: Result<usize, ArgsError>)
    requires
        i < s@.len(),
    ensures
        match option_at(s@, i as nat, old(a)@) {
            Ok((b, n)) => r == Ok::<usize, ArgsError>(n as usize) && final(a)@ == b && 1 <= n <= 2,
            Err(x) => r matches Err(e) && e@ == x,
        },
{
    let name: &str = s[i].as_str();
    match find_numeric(name) {
        Some(n) => {
            let v = text_after(s, i);
            if set_number(a, n, v.as_str()) {
                return Ok(2);
            }
            return Err(ArgsError::BadNumber(v));
        },
        None => {},
    }
    let last: usize = s.len() - 1;
    if same(name, "--target") {
        if i < last {
            a.target = text_after(s, i);
            Ok(2)
        } else {
            Err(ArgsError::NoTarget)
        }
    } else if same(name, "--workload") {
        let v = text_after(s, i);
        match Workload::named(v.as_str()) {
            Some(w) => {
                a.workload = w;
                Ok(2)
            },
            None => Err(ArgsError::UnknownWorkload(v)),
        }
    } else if same(name, "--shared") {
        a.shared = true;
        Ok(1)
    } else if same(name, "--ws") {
        a.ws = true;
        Ok(1)
    } else if same(name, "-h") || same(name, "--help") {
        Err(ArgsError::Help)
    } else {
        Err(ArgsError::Unexpected(s[i].clone()))
    }
}

impl Args {
    /// Reads the options from the texts after the name of the program.
    pub fn parse(s: &Vec<String>) -> (r: Result<Args, ArgsError>)
        ensures
            match options_from(s@, 0, default_args()) {
                Ok(a) => r matches Ok(x) && x@ == a,
                Err(f) => r matches Err(e) && e@ == f,
            },
    {
        let mut a = Args {
            target: text("http://127.0.0.1:8080"),
            workers: 8,
            duration: 10,
            warmup: 1,
            workload: Workload::Tx,
            shared: false,
            accounts: 100,
            ws: false,
            inflight: 1,
        };
        let n: usize = s.len();
        let mut i: usize = 0;
        while i < n
            invariant
                n == s@.len(),
                options_from(s@, 0, default_args()) == options_from(s@, i as nat, a@),
            decreases n - i,
        {
            match take_option(s, i, &mut a) {
                Ok(k) => {
                    if k >= n - i {
                        assert(options_from(s@, (i + k) as nat, a@) == Ok::<ArgsView, ArgsFault>(a@));
                        return Ok(a);
                    }
                    i = i + k;
                },
                Err(e) => {
                    return Err(e);
                },
            }
        }
        Ok(a)
    }
}

/// The account that receives, given two picked at random: never the one that sends,
/// where there are two.
pub open spec fn receiver(from: nat, to: nat, accounts: nat) -> nat {
    if to == from {
        (to + 1) % accounts
    } else {
        to
    }
}

/// The account that receives, given two picked at random.
pub fn pick_receiver(from: usize, to: usize, accounts: usize) -> (r: usize)
    requires
        from < accounts,
        to < accounts,
    ensures
        r == receiver(from as nat, to as nat, accounts as nat),
{
    if to == from {
        (to + 1) % accounts
    } else {
        to
    }
}

/// With at least two accounts, a transfer goes to another account, which exists.
pub proof fn transfers_have_two_ends(from: nat, to: nat, accounts: nat)
    requires
        from < accounts,
        to < accounts,
        accounts >= 2,
    ensures
        receiver(from, to, accounts) != from,
        receiver(from, to, accounts) < accounts,
{
    if to == from && to + 1 < accounts {
        vstd::arithmetic::div_mod::lemma_small_mod((to + 1) as nat, accounts);
    } else if to == from {
        vstd::arithmetic::div_mod::lemma_mod_self_0(accounts as int);
    }
}

/// One above the largest account that sends to the first.
pub fn hot_bound(accounts: usize) -> (r: usize)
    ensures
        r == if accounts < 2 {
            2
        } else {
            accounts as int
        },
{
    if accounts < 2 {
        2
    } else {
        accounts
    }
}

/// The transaction that gives an account its money.
pub open spec fn mint_text(i: nat) -> Seq<char> {
    "module setup; fn main() -> u64 { return bank::mint(address(\"acc-"@ + decimal(i) + "\"), 1000000u64); }"@
}

/// The transaction that gives an account its money.
pub fn mint_source(i: usize) -> (r: String)
    ensures
        r@ == mint_text(i as nat),
{
    concat_num(
        "module setup; fn main() -> u64 { return bank::mint(address(\"acc-",
        i as u128,
        "\"), 1000000u64); }",
    )
}

/// The transaction that moves one unit between two accounts.
pub open spec fn transfer_text(from: nat, to: nat) -> Seq<char> {
    "module t; fn main() -> u64 { return bank::transfer(address(\"acc-"@ + decimal(from)
        + "\"), address(\"acc-"@ + decimal(to) + "\"), 1u64); }"@
}

/// The transaction that a workload sends, given the two accounts of a transfer.
pub open spec fn tx_text(w: Workload, from: nat, to: nat) -> Seq<char> {
    match w {
        Workload::Tx => "module t; fn main() -> u64 { return ctr::bump(); }"@,
        Workload::Query => "module q; view fn main() -> u64 { return ctr::current(); }"@,
        Workload::Transfer => transfer_text(from, to),
        Workload::TransferHot => transfer_text(from, 0),
    }
}

fn transfer_source(from: usize, to: usize) -> (r: String)
    ensures
        r@ == transfer_text(from as nat, to as nat),
{
    let mut r = concat_num(
        "module t; fn main() -> u64 { return bank::transfer(address(\"acc-",
        from as u128,
        "\"), address(\"acc-",
    );
    push_decimal(&mut r, to as u128);
    r.append("\"), 1u64); }");
    r
}

/// The transaction that a workload sends; `from` and `to` are the accounts of a
/// transfer, of which a hot one goes to the first.
pub fn tx_source(w: Workload, from: usize, to: usize) -> (r: String)
    ensures
        r@ == tx_text(w, from as nat, to as nat),
{
    match w {
        Workload::Tx => text("module t; fn main() -> u64 { return ctr::bump(); }"),
        Workload::Query => text("module q; view fn main() -> u64 { return ctr::current(); }"),
        Workload::Transfer => transfer_source(from, to),
        Workload::TransferHot => transfer_source(from, 0),
    }
}

} // verus!
