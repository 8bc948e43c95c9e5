//! The state of a running program, and what it asks of its surroundings.
//!
//! A program does not touch storage or the host itself. Where it needs them it
//! states a request; the replies are handed to it as a list, in the order of the
//! requests. A run that has used up its replies halts with the next request, and
//! is started again with one reply more.

use vstd::prelude::*;
use crate::ast::{Module, Type, TypeView, type_view};
use crate::error::{Error, ErrorView};
use crate::tables::{find_last, place};
use crate::value::{Value, ValueView, pair_views, value_view, views};

verus! {

/// What is done to a collection.
#[derive(Debug, Clone, Copy, PartialEq, Eq, Structural)]
pub enum Op {
    Get,
    Put,
    Remove,
    Contains,
    Entries,
    Range,
    Push,
    ToVec,
}

/// What a program asks for.
#[derive(Debug)]
pub enum Request {
    /// The value of a type under a key.
    Read { key: u128, ty: Type },
    /// To store a value of a type under a key.
    Write { key: u128, ty: Type, value: Value },
    /// The value of a type in one cell.
    ReadCell { cell: u128, ty: Type },
    /// To store a value in one cell.
    WriteCell { cell: u128, value: Value },
    /// The stored form of a value.
    Encode { value: Value },
    /// An operation on the collection of a type with a root and a length.
    On { op: Op, ty: Type, root: u128, len: u64, args: Vec<Value> },
    /// A call of a host function.
    Host { name: String, args: Vec<Value> },
    /// To record an event.
    Emit { module: String, name: String, args: Vec<Value> },
}

/// The model of a [`Request`].
pub enum RequestView {
    Read { key: u128, ty: TypeView },
    Write { key: u128, ty: TypeView, value: ValueView },
    ReadCell { cell: u128, ty: TypeView },
    WriteCell { cell: u128, value: ValueView },
    Encode { value: ValueView },
    On { op: Op, ty: TypeView, root: u128, len: u64, args: Seq<ValueView> },
    Host { name: Seq<char>, args: Seq<ValueView> },
    Emit { module: Seq<char>, name: Seq<char>, args: Seq<ValueView> },
}

impl View for Request {
    type V = RequestView;

    open spec fn view(&self) -> RequestView {
        match *self {
            Request::Read { key, ty } => RequestView::Read { key, ty: type_view(ty) },
            Request::Write { key, ty, value } => RequestView::Write {
                key,
                ty: type_view(ty),
                value: value_view(value),
            },
            Request::ReadCell { cell, ty } => RequestView::ReadCell { cell, ty: type_view(ty) },
            Request::WriteCell { cell, value } => RequestView::WriteCell {
                cell,
                value: value_view(value),
            },
            Request::Encode { value } => RequestView::Encode { value: value_view(value) },
            Request::On { op, ty, root, len, args } => RequestView::On {
                op,
                ty: type_view(ty),
                root,
                len,
                args: views(args@),
            },
            Request::Host { name, args } => RequestView::Host { name: name@, args: views(args@) },
            Request::Emit { module, name, args } => RequestView::Emit {
                module: module@,
                name: name@,
                args: views(args@),
            },
        }
    }
}

/// What a program gets back.
#[derive(Debug)]
pub enum Reply {
    Done,
    Value(Value),
    Absent,
    Bytes(Vec<u8>),
    Root(u128),
    RootLen { root: u128, len: u64 },
    Flag(bool),
    Values(Vec<Value>),
    Entries(Vec<(Value, Value)>),
    Failed(Error),
    HostFailed(String),
}

/// The model of a [`Reply`].
pub enum ReplyView {
    Done,
    Value(ValueView),
    Absent,
    Bytes(Seq<u8>),
    Root(u128),
    RootLen { root: u128, len: u64 },
    Flag(bool),
    Values(Seq<ValueView>),
    Entries(Seq<(ValueView, ValueView)>),
    Failed(ErrorView),
    HostFailed(Seq<char>),
}

impl View for Reply {
    type V = ReplyView;

    open spec fn view(&self) -> ReplyView {
        match *self {
            Reply::Done => ReplyView::Done,
            Reply::Value(v) => ReplyView::Value(value_view(v)),
            Reply::Absent => ReplyView::Absent,
            Reply::Bytes(b) => ReplyView::Bytes(b@),
            Reply::Root(h) => ReplyView::Root(h),
            Reply::RootLen { root, len } => ReplyView::RootLen { root, len },
            Reply::Flag(b) => ReplyView::Flag(b),
            Reply::Values(v) => ReplyView::Values(views(v@)),
            Reply::Entries(v) => ReplyView::Entries(pair_views(v@)),
            Reply::Failed(e) => ReplyView::Failed(e@),
            Reply::HostFailed(s) => ReplyView::HostFailed(s@),
        }
    }
}

/// Why a run ends before its time.
#[derive(Debug)]
pub enum Halt {
    /// The program failed.
    Fail(Error),
    /// The program needs a reply to this request.
    Need(Request),
    /// The reply is none that fits the request.
    BadReply,
    /// The nesting and the rounds of loops together went too deep.
    OutOfFuel,
}

/// The model of a [`Halt`].
pub enum Stop {
    Fail(ErrorView),
    Need(RequestView),
    BadReply,
    OutOfFuel,
}

impl View for Halt {
    type V = Stop;

    open spec fn view(&self) -> Stop {
        match *self {
            Halt::Fail(e) => Stop::Fail(e@),
            Halt::Need(r) => Stop::Need(r@),
            Halt::BadReply => Stop::BadReply,
            Halt::OutOfFuel => Stop::OutOfFuel,
        }
    }
}

/// The mutable state of a run.
#[derive(Debug)]
pub struct Machine {
    /// The scopes, outermost first; in each, a later entry hides an earlier one.
    pub scopes: Vec<Vec<(String, Value)>>,
    /// The values of the pipes under way, the innermost last.
    pub pipe: Vec<Value>,
    /// The non-reentrant functions under way, by their places.
    pub entered: Vec<usize>,
    /// How many replies have been used.
    pub used: usize,
}

pub type ScopeValues = Map<Seq<char>, ValueView>;

/// The model of a [`Machine`].
#[verifier::ext_equal]
pub struct MachineView {
    pub scopes: Seq<ScopeValues>,
    pub pipe: Seq<ValueView>,
    pub entered: Seq<usize>,
    pub used: nat,
}

/// What the names of a scope stand for.
pub open spec fn scope_values(s: Seq<(String, Value)>) -> ScopeValues
    decreases s.len(),
{
    if s.len() == 0 {
        Map::empty()
    } else {
        scope_values(s.drop_last()).insert(s.last().0@, value_view(s.last().1))
    }
}

pub open spec fn scopes_values(s: Seq<Vec<(String, Value)>>) -> Seq<ScopeValues> {
    Seq::new(s.len(), |i: int| scope_values(s[i]@))
}

impl View for Machine {
    type V = MachineView;

    open spec fn view(&self) -> MachineView {
        MachineView {
            scopes: scopes_values(self.scopes@),
            pipe: views(self.pipe@),
            entered: self.entered@,
            used: self.used as nat,
        }
    }
}

proof fn lemma_scope_value(s: Seq<(String, Value)>, name: Seq<char>)
    ensures
        scope_values(s).dom().contains(name) <==> place(s, name) is Some,
        place(s, name) matches Some(k) ==> 0 <= k < s.len() && scope_values(s)[name] == value_view(s[k].1),
    decreases s.len(),
{
    if s.len() > 0 {
        lemma_scope_value(s.drop_last(), name);
    }
}

/// The innermost scope that holds a name.
pub open spec fn inner_scope(s: Seq<ScopeValues>, name: Seq<char>) -> Option<int>
    decreases s.len(),
{
    if s.len() == 0 {
        None
    } else if s.last().dom().contains(name) {
        Some(s.len() - 1)
    } else {
        inner_scope(s.drop_last(), name)
    }
}

/// What a name stands for in the innermost scope that holds it.
pub open spec fn local(m: MachineView, name: Seq<char>) -> Option<ValueView> {
    match inner_scope(m.scopes, name) {
        Some(i) => Some(m.scopes[i][name]),
        None => None,
    }
}

pub open spec fn opened(m: MachineView) -> MachineView {
    MachineView { scopes: m.scopes.push(Map::empty()), ..m }
}

pub open spec fn closed(m: MachineView) -> MachineView {
    MachineView { scopes: m.scopes.drop_last(), ..m }
}

/// With no local in sight.
pub open spec fn without_locals(m: MachineView) -> MachineView {
    MachineView { scopes: seq![], ..m }
}

/// With a name in the innermost scope.
pub open spec fn with_local(m: MachineView, name: Seq<char>, v: ValueView) -> MachineView {
    set_in(m, m.scopes.len() - 1, name, v)
}

/// With a name in the `i`-th scope.
pub open spec fn set_in(m: MachineView, i: int, name: Seq<char>, v: ValueView) -> MachineView {
    MachineView { scopes: m.scopes.update(i, m.scopes[i].insert(name, v)), ..m }
}

pub open spec fn with_pipe(m: MachineView, v: ValueView) -> MachineView {
    MachineView { pipe: m.pipe.push(v), ..m }
}

pub open spec fn without_pipe(m: MachineView) -> MachineView {
    MachineView { pipe: m.pipe.drop_last(), ..m }
}

/// The first names with the values at their places, in the innermost scope.
pub open spec fn with_locals(m: MachineView, names: Seq<String>, vs: Seq<ValueView>, n: nat) -> MachineView
    decreases n,
    when n <= names.len() && n <= vs.len()
{
    if n == 0 {
        m
    } else {
        with_local(with_locals(m, names, vs, (n - 1) as nat), names[n - 1]@, vs[n - 1])
    }
}

/// The machine that starts a program.
pub open spec fn fresh() -> MachineView {
    MachineView { scopes: seq![], pipe: seq![], entered: seq![], used: 0 }
}

impl Machine {
    pub fn new() -> (r: Machine)
        ensures
            r@ == fresh(),
    {
        let r = Machine { scopes: Vec::new(), pipe: Vec::new(), entered: Vec::new(), used: 0 };
        assert(r@ =~= fresh());
        r
    }

    pub(crate) fn open(&mut self)
        ensures
            final(self)@ == opened(old(self)@),
    {
        let ghost before = self@;
        let s: Vec<(String, Value)> = Vec::new();
        self.scopes.push(s);
        assert(self@.scopes =~= opened(before).scopes);
    }

    pub(crate) fn close(&mut self)
        requires
            old(self)@.scopes.len() > 0,
        ensures
            final(self)@ == closed(old(self)@),
    {
        let ghost before = self@;
        let _ = self.scopes.pop();
        assert(self@.scopes =~= closed(before).scopes);
    }

    pub(crate) fn put_in(&mut self, i: usize, name: &str, v: Value)
        requires
            i < old(self)@.scopes.len(),
        ensures
            final(self)@ == set_in(old(self)@, i as int, name@, v@),
    {
        let ghost before = self@;
        let ghost x = v@;
        let ghost s0 = self.scopes@[i as int]@;
        self.scopes[i].push((crate::text::text(name), v));
        assert(self.scopes@[i as int]@.drop_last() =~= s0);
        assert(self@.scopes =~= set_in(before, i as int, name@, x).scopes);
    }

    pub(crate) fn bind(&mut self, name: &str, v: Value)
        requires
            old(self)@.scopes.len() > 0,
        ensures
            final(self)@ == with_local(old(self)@, name@, v@),
    {
        let i: usize = self.scopes.len() - 1;
        self.put_in(i, name, v);
    }

    /// The innermost scope and the place in it of a name.
    pub(crate) fn find_inner(&self, name: &str) -> (r: Option<(usize, usize)>)
        ensures
            match r {
                Some(p) => inner_scope(self@.scopes, name@) == Some(p.0 as int) && p.0 < self.scopes@.len()
                    && p.1 < self.scopes@[p.0 as int]@.len() && value_view(
                    self.scopes@[p.0 as int]@[p.1 as int].1,
                ) == self@.scopes[p.0 as int][name@],
                None => inner_scope(self@.scopes, name@) is None,
            },
    {
        let mut i: usize = self.scopes.len();
        let ghost all = self@.scopes;
        assert(all.take(i as int) =~= all);
        while i > 0
            invariant
                i <= self.scopes@.len(),
                all == self@.scopes,
                inner_scope(all, name@) == inner_scope(all.take(i as int), name@),
            decreases i,
        {
            i = i - 1;
            assert(all.take(i as int + 1).drop_last() =~= all.take(i as int));
            assert(all.take(i as int + 1).last() == all[i as int]);
            proof {
                lemma_scope_value(self.scopes@[i as int]@, name@);
            }
            match find_last(&self.scopes[i], name) {
                Some(k) => return Some((i, k)),
                None => {},
            }
        }
        None
    }

    /// What a local name stands for.
    pub(crate) fn get_local(&self, name: &str) -> (r: Option<Value>)
        ensures
            match local(self@, name@) {
                Some(v) => match r {
                    Some(x) => x@ == v,
                    None => false,
                },
                None => r is None,
            },
    {
        match self.find_inner(name) {
            Some((i, k)) => Some(self.scopes[i][k].1.copy()),
            None => None,
        }
    }

    pub(crate) fn bind_all(&mut self, names: &Vec<String>, vs: &Vec<Value>, n: usize)
        requires
            old(self)@.scopes.len() > 0,
            n <= names@.len(),
            n <= vs@.len(),
        ensures
            final(self)@ == with_locals(old(self)@, names@, views(vs@), n as nat),
            final(self)@.scopes.len() == old(self)@.scopes.len(),
    {
        let ghost m0 = self@;
        let ghost s = views(vs@);
        let mut i: usize = 0;
        while i < n
            invariant
                i <= n,
                n <= names@.len(),
                n <= vs@.len(),
                s == views(vs@),
                self@.scopes.len() == m0.scopes.len(),
                m0.scopes.len() > 0,
                self@ == with_locals(m0, names@, s, i as nat),
            decreases n - i,
        {
            self.bind(names[i].as_str(), vs[i].copy());
            i = i + 1;
        }
    }

    pub(crate) fn push_pipe(&mut self, v: Value)
        ensures
            final(self)@ == with_pipe(old(self)@, v@),
    {
        let ghost before = self@;
        let ghost x = v@;
        self.pipe.push(v);
        assert(self@.pipe =~= before.pipe.push(x));
    }

    pub(crate) fn pop_pipe(&mut self)
        requires
            old(self)@.pipe.len() > 0,
        ensures
            final(self)@ == without_pipe(old(self)@),
    {
        let ghost before = self@;
        let _ = self.pipe.pop();
        assert(self@.pipe =~= before.pipe.drop_last());
    }
}

/// What a program is run with.
pub struct Setting<'a> {
    pub module: &'a Module,
    pub replies: &'a Vec<Reply>,
    pub sender: &'a Value,
    pub block_timestamp: u64,
    pub block_number: u64,
}

/// The reply to a request, or the need for one.
pub open spec fn asked(cx: Setting, m: MachineView, req: RequestView) -> Result<(ReplyView, MachineView), Stop> {
    if m.used < cx.replies@.len() {
        Ok((cx.replies@[m.used as int]@, MachineView { used: m.used + 1, ..m }))
    } else {
        Err(Stop::Need(req))
    }
}

fn ask<'a>(cx: &Setting<'a>, m: &mut Machine, req: Request) -> (r: Result<&'a Reply, Halt>)
    ensures
        match asked(*cx, old(m)@, req@) {
            Ok((reply, m2)) => final(m)@ == m2 && match r {
                Ok(x) => x@ == reply,
                Err(_) => false,
            },
            Err(s) => match r {
                Ok(_) => false,
                Err(h) => h@ == s,
            },
        },
{
    if m.used < cx.replies.len() {
        let reply = &cx.replies[m.used];
        m.used = m.used + 1;
        Ok(reply)
    } else {
        Err(Halt::Need(req))
    }
}

/// The reply to a request whose answer is of one kind.
pub open spec fn asked_value(cx: Setting, m: MachineView, req: RequestView) -> Result<(ValueView, MachineView), Stop> {
    match asked(cx, m, req) {
        Err(s) => Err(s),
        Ok((reply, m2)) => match reply {
            ReplyView::Value(v) => Ok((v, m2)),
            ReplyView::Failed(e) => Err(Stop::Fail(e)),
            _ => Err(Stop::BadReply),
        },
    }
}

pub(crate) fn ask_value(cx: &Setting, m: &mut Machine, req: Request) -> (r: Result<Value, Halt>)
    ensures
        match asked_value(*cx, old(m)@, req@) {
            Ok((v, m2)) => final(m)@ == m2 && match r {
                Ok(x) => x@ == v,
                Err(_) => false,
            },
            Err(s) => match r {
                Ok(_) => false,
                Err(h) => h@ == s,
            },
        },
{
    match ask(cx, m, req) {
        Err(h) => Err(h),
        Ok(reply) => match reply {
            Reply::Value(v) => Ok(v.copy()),
            Reply::Failed(e) => Err(Halt::Fail(e.copy())),
            _ => Err(Halt::BadReply),
        },
    }
}

/// The reply to a request whose answer is of one kind.
pub open spec fn asked_option(
    cx: Setting,
    m: MachineView,
    req: RequestView,
) -> Result<(Option<ValueView>, MachineView), Stop> {
    match asked(cx, m, req) {
        Err(s) => Err(s),
        Ok((reply, m2)) => match reply {
            ReplyView::Value(v) => Ok((Some(v), m2)),
            ReplyView::Absent => Ok((None, m2)),
            ReplyView::Failed(e) => Err(Stop::Fail(e)),
            _ => Err(Stop::BadReply),
        },
    }
}

pub(crate) fn ask_option(cx: &Setting, m: &mut Machine, req: Request) -> (r: Result<Option<Value>, Halt>)
    ensures
        match asked_option(*cx, old(m)@, req@) {
            Ok((v, m2)) => final(m)@ == m2 && match r {
                Ok(x) => match (x, v) {
                    (Some(a), Some(b)) => a@ == b,
                    (None, None) => true,
                    _ => false,
                },
                Err(_) => false,
            },
            Err(s) => match r {
                Ok(_) => false,
                Err(h) => h@ == s,
            },
        },
{
    match ask(cx, m, req) {
        Err(h) => Err(h),
        Ok(reply) => match reply {
            Reply::Value(v) => Ok(Some(v.copy())),
            Reply::Absent => Ok(None),
            Reply::Failed(e) => Err(Halt::Fail(e.copy())),
            _ => Err(Halt::BadReply),
        },
    }
}

/// The reply to a request whose answer is of one kind.
pub open spec fn asked_done(cx: Setting, m: MachineView, req: RequestView) -> Result<((), MachineView), Stop> {
    match asked(cx, m, req) {
        Err(s) => Err(s),
        Ok((reply, m2)) => match reply {
            ReplyView::Done => Ok(((), m2)),
            ReplyView::Failed(e) => Err(Stop::Fail(e)),
            _ => Err(Stop::BadReply),
        },
    }
}

pub(crate) fn ask_done(cx: &Setting, m: &mut Machine, req: Request) -> (r: Result<(), Halt>)
    ensures
        match asked_done(*cx, old(m)@, req@) {
            Ok((v, m2)) => final(m)@ == m2 && match r {
                Ok(x) => true,
                Err(_) => false,
            },
            Err(s) => match r {
                Ok(_) => false,
                Err(h) => h@ == s,
            },
        },
{
    match ask(cx, m, req) {
        Err(h) => Err(h),
        Ok(reply) => match reply {
            Reply::Done => Ok(()),
            Reply::Failed(e) => Err(Halt::Fail(e.copy())),
            _ => Err(Halt::BadReply),
        },
    }
}

/// The reply to a request whose answer is of one kind.
pub open spec fn asked_root(cx: Setting, m: MachineView, req: RequestView) -> Result<(u128, MachineView), Stop> {
    match asked(cx, m, req) {
        Err(s) => Err(s),
        Ok((reply, m2)) => match reply {
            ReplyView::Root(h) => Ok((h, m2)),
            ReplyView::Failed(e) => Err(Stop::Fail(e)),
            _ => Err(Stop::BadReply),
        },
    }
}

pub(crate) fn ask_root(cx: &Setting, m: &mut Machine, req: Request) -> (r: Result<u128, Halt>)
    ensures
        match asked_root(*cx, old(m)@, req@) {
            Ok((v, m2)) => final(m)@ == m2 && match r {
                Ok(x) => x == v,
                Err(_) => false,
            },
            Err(s) => match r {
                Ok(_) => false,
                Err(h) => h@ == s,
            },
        },
{
    match ask(cx, m, req) {
        Err(h) => Err(h),
        Ok(reply) => match reply {
            Reply::Root(h) => Ok(*h),
            Reply::Failed(e) => Err(Halt::Fail(e.copy())),
            _ => Err(Halt::BadReply),
        },
    }
}

/// The reply to a request whose answer is of one kind.
pub open spec fn asked_flag(cx: Setting, m: MachineView, req: RequestView) -> Result<(bool, MachineView), Stop> {
    match asked(cx, m, req) {
        Err(s) => Err(s),
        Ok((reply, m2)) => match reply {
            ReplyView::Flag(b) => Ok((b, m2)),
            ReplyView::Failed(e) => Err(Stop::Fail(e)),
            _ => Err(Stop::BadReply),
        },
    }
}

pub(crate) fn ask_flag(cx: &Setting, m: &mut Machine, req: Request) -> (r: Result<bool, Halt>)
    ensures
        match asked_flag(*cx, old(m)@, req@) {
            Ok((v, m2)) => final(m)@ == m2 && match r {
                Ok(x) => x == v,
                Err(_) => false,
            },
            Err(s) => match r {
                Ok(_) => false,
                Err(h) => h@ == s,
            },
        },
{
    match ask(cx, m, req) {
        Err(h) => Err(h),
        Ok(reply) => match reply {
            Reply::Flag(b) => Ok(*b),
            Reply::Failed(e) => Err(Halt::Fail(e.copy())),
            _ => Err(Halt::BadReply),
        },
    }
}

/// The reply to a request whose answer is of one kind.
pub open spec fn asked_bytes(cx: Setting, m: MachineView, req: RequestView) -> Result<(Seq<u8>, MachineView), Stop> {
    match asked(cx, m, req) {
        Err(s) => Err(s),
        Ok((reply, m2)) => match reply {
            ReplyView::Bytes(b) => Ok((b, m2)),
            ReplyView::Failed(e) => Err(Stop::Fail(e)),
            _ => Err(Stop::BadReply),
        },
    }
}

pub(crate) fn ask_bytes(cx: &Setting, m: &mut Machine, req: Request) -> (r: Result<Vec<u8>, Halt>)
    ensures
        match asked_bytes(*cx, old(m)@, req@) {
            Ok((v, m2)) => final(m)@ == m2 && match r {
                Ok(x) => x@ == v,
                Err(_) => false,
            },
            Err(s) => match r {
                Ok(_) => false,
                Err(h) => h@ == s,
            },
        },
{
    match ask(cx, m, req) {
        Err(h) => Err(h),
        Ok(reply) => match reply {
            Reply::Bytes(b) => Ok(copy_bytes(b)),
            Reply::Failed(e) => Err(Halt::Fail(e.copy())),
            _ => Err(Halt::BadReply),
        },
    }
}

/// The reply to a request whose answer is of one kind.
pub open spec fn asked_values(
    cx: Setting,
    m: MachineView,
    req: RequestView,
) -> Result<(Seq<ValueView>, MachineView), Stop> {
    match asked(cx, m, req) {
        Err(s) => Err(s),
        Ok((reply, m2)) => match reply {
            ReplyView::Values(s) => Ok((s, m2)),
            ReplyView::Failed(e) => Err(Stop::Fail(e)),
            _ => Err(Stop::BadReply),
        },
    }
}

pub(crate) fn ask_values(cx: &Setting, m: &mut Machine, req: Request) -> (r: Result<Vec<Value>, Halt>)
    ensures
        match asked_values(*cx, old(m)@, req@) {
            Ok((v, m2)) => final(m)@ == m2 && match r {
                Ok(x) => views(x@) == v,
                Err(_) => false,
            },
            Err(s) => match r {
                Ok(_) => false,
                Err(h) => h@ == s,
            },
        },
{
    match ask(cx, m, req) {
        Err(h) => Err(h),
        Ok(reply) => match reply {
            Reply::Values(s) => Ok(crate::value::copy_values(s)),
            Reply::Failed(e) => Err(Halt::Fail(e.copy())),
            _ => Err(Halt::BadReply),
        },
    }
}

/// The reply to a request whose answer is of one kind.
pub open spec fn asked_entries(
    cx: Setting,
    m: MachineView,
    req: RequestView,
) -> Result<(Seq<(ValueView, ValueView)>, MachineView), Stop> {
    match asked(cx, m, req) {
        Err(s) => Err(s),
        Ok((reply, m2)) => match reply {
            ReplyView::Entries(s) => Ok((s, m2)),
            ReplyView::Failed(e) => Err(Stop::Fail(e)),
            _ => Err(Stop::BadReply),
        },
    }
}

pub(crate) fn ask_entries(cx: &Setting, m: &mut Machine, req: Request) -> (r: Result<Vec<(Value, Value)>, Halt>)
    ensures
        match asked_entries(*cx, old(m)@, req@) {
            Ok((v, m2)) => final(m)@ == m2 && match r {
                Ok(x) => pair_views(x@) == v,
                Err(_) => false,
            },
            Err(s) => match r {
                Ok(_) => false,
                Err(h) => h@ == s,
            },
        },
{
    match ask(cx, m, req) {
        Err(h) => Err(h),
        Ok(reply) => match reply {
            Reply::Entries(s) => Ok(crate::value::copy_pairs(s)),
            Reply::Failed(e) => Err(Halt::Fail(e.copy())),
            _ => Err(Halt::BadReply),
        },
    }
}

/// The reply to a request whose answer is of one kind.
pub open spec fn asked_root_len(
    cx: Setting,
    m: MachineView,
    req: RequestView,
) -> Result<((u128, u64), MachineView), Stop> {
    match asked(cx, m, req) {
        Err(s) => Err(s),
        Ok((reply, m2)) => match reply {
            ReplyView::RootLen { root, len } => Ok(((root, len), m2)),
            ReplyView::Failed(e) => Err(Stop::Fail(e)),
            _ => Err(Stop::BadReply),
        },
    }
}

pub(crate) fn ask_root_len(cx: &Setting, m: &mut Machine, req: Request) -> (r: Result<(u128, u64), Halt>)
    ensures
        match asked_root_len(*cx, old(m)@, req@) {
            Ok((v, m2)) => final(m)@ == m2 && match r {
                Ok(x) => x == v,
                Err(_) => false,
            },
            Err(s) => match r {
                Ok(_) => false,
                Err(h) => h@ == s,
            },
        },
{
    match ask(cx, m, req) {
        Err(h) => Err(h),
        Ok(reply) => match reply {
            Reply::RootLen { root, len } => Ok((*root, *len)),
            Reply::Failed(e) => Err(Halt::Fail(e.copy())),
            _ => Err(Halt::BadReply),
        },
    }
}

/// The reply to a call of a host function: a value or the host's message.
pub open spec fn asked_host(cx: Setting, m: MachineView, req: RequestView) -> Result<
    (Result<ValueView, Seq<char>>, MachineView),
    Stop,
> {
    match asked(cx, m, req) {
        Err(s) => Err(s),
        Ok((reply, m2)) => match reply {
            ReplyView::Value(v) => Ok((Ok(v), m2)),
            ReplyView::HostFailed(s) => Ok((Err(s), m2)),
            ReplyView::Failed(e) => Err(Stop::Fail(e)),
            _ => Err(Stop::BadReply),
        },
    }
}

pub(crate) fn ask_host(cx: &Setting, m: &mut Machine, req: Request) -> (r: Result<
    Result<Value, String>,
    Halt,
>)
    ensures
        match asked_host(*cx, old(m)@, req@) {
            Ok((v, m2)) => final(m)@ == m2 && match r {
                Ok(x) => match (x, v) {
                    (Ok(a), Ok(b)) => a@ == b,
                    (Err(a), Err(b)) => a@ == b,
                    _ => false,
                },
                Err(_) => false,
            },
            Err(s) => match r {
                Ok(_) => false,
                Err(h) => h@ == s,
            },
        },
{
    match ask(cx, m, req) {
        Err(h) => Err(h),
        Ok(reply) => match reply {
            Reply::Value(v) => Ok(Ok(v.copy())),
            Reply::HostFailed(s) => Ok(Err(s.clone())),
            Reply::Failed(e) => Err(Halt::Fail(e.copy())),
            _ => Err(Halt::BadReply),
        },
    }
}

fn copy_bytes(v: &Vec<u8>) -> (r: Vec<u8>)
    ensures
        r@ == v@,
{
    let mut r: Vec<u8> = Vec::new();
    crate::bytes::push_all(&mut r, v.as_slice());
    assert(r@ =~= v@);
    r
}

} // verus!
