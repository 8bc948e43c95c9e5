//! The state of a function under compilation: its code, constants, registers and
//! scopes.

use vstd::prelude::*;
use crate::ast::{Type, TypeView, type_view};
use crate::bc::{Const, ConstView, Instr, PathSpec};
use crate::error::{Error, ErrorKind, ErrorView};
use crate::optimize::{leap_of, retargeted, well_linked};
use crate::tables::{find_last, lemma_place, place};
use crate::text::{concat3, same, text};
use crate::token::Span;

verus! {

/// The jumps out of a loop, and those to its next round, by their places.
#[derive(Debug)]
pub struct LoopFrame {
    pub break_jumps: Vec<usize>,
    pub continue_jumps: Vec<usize>,
}

/// The model of a [`LoopFrame`].
pub struct LoopView {
    pub breaks: Seq<usize>,
    pub continues: Seq<usize>,
}

/// A path into a state that the code reads or writes.
#[derive(Debug)]
pub struct PathEntry {
    pub state_idx: u16,
    pub path: Vec<String>,
    pub spec: PathSpec,
}

/// The model of a [`PathEntry`].
pub struct PathView {
    pub state_idx: u16,
    pub path: Seq<Seq<char>>,
    pub key: u128,
    pub ty: TypeView,
    pub is_blob: bool,
}

/// A function under compilation.
#[derive(Debug)]
pub struct Builder {
    pub code: Vec<Instr>,
    pub consts: Vec<Const>,
    /// The next free register.
    pub next_reg: u16,
    /// How many registers the code needs.
    pub max_reg: u16,
    /// The scopes, outermost first; in each, a later entry hides an earlier one.
    pub scopes: Vec<Vec<(String, u16)>>,
    pub pipe_stack: Vec<u16>,
    pub loop_stack: Vec<LoopFrame>,
    pub paths: Vec<PathEntry>,
    /// How many loops over arrays have been compiled.
    pub seen: usize,
}

pub type ScopeRegs = Map<Seq<char>, u16>;

/// The model of a [`Builder`].
#[verifier::ext_equal]
pub struct BuilderView {
    pub code: Seq<Instr>,
    pub consts: Seq<ConstView>,
    pub next: u16,
    pub max: u16,
    pub scopes: Seq<ScopeRegs>,
    pub pipes: Seq<u16>,
    pub loops: Seq<LoopView>,
    pub paths: Seq<PathView>,
    pub seen: usize,
}

/// What a step of compilation owes.
pub type Built = Result<BuilderView, ErrorView>;

pub open spec fn const_views(s: Seq<Const>) -> Seq<ConstView> {
    Seq::new(s.len(), |i: int| s[i]@)
}

pub open spec fn scope_regs(s: Seq<(String, u16)>) -> ScopeRegs
    decreases s.len(),
{
    if s.len() == 0 {
        Map::empty()
    } else {
        scope_regs(s.drop_last()).insert(s.last().0@, s.last().1)
    }
}

pub open spec fn scopes_regs(s: Seq<Vec<(String, u16)>>) -> Seq<ScopeRegs> {
    Seq::new(s.len(), |i: int| scope_regs(s[i]@))
}

pub open spec fn loop_views(s: Seq<LoopFrame>) -> Seq<LoopView> {
    Seq::new(
        s.len(),
        |i: int| LoopView { breaks: s[i].break_jumps@, continues: s[i].continue_jumps@ },
    )
}

pub open spec fn names_of(s: Seq<String>) -> Seq<Seq<char>> {
    Seq::new(s.len(), |i: int| s[i]@)
}

pub open spec fn path_view(p: PathEntry) -> PathView {
    PathView {
        state_idx: p.state_idx,
        path: names_of(p.path@),
        key: p.spec.leaf_key,
        ty: type_view(p.spec.leaf_type),
        is_blob: p.spec.is_blob,
    }
}

pub open spec fn path_views(s: Seq<PathEntry>) -> Seq<PathView> {
    Seq::new(s.len(), |i: int| path_view(s[i]))
}

impl View for Builder {
    type V = BuilderView;

    open spec fn view(&self) -> BuilderView {
        BuilderView {
            code: self.code@,
            consts: const_views(self.consts@),
            next: self.next_reg,
            max: self.max_reg,
            scopes: scopes_regs(self.scopes@),
            pipes: self.pipe_stack@,
            loops: loop_views(self.loop_stack@),
            paths: path_views(self.paths@),
            seen: self.seen,
        }
    }
}

pub open spec fn type_error(msg: Seq<char>, span: Span) -> ErrorView {
    ErrorView { kind: ErrorKind::Type, msg, span }
}

pub fn type_err(msg: String, span: Span) -> (r: Error)
    ensures
        r@ == type_error(msg@, span),
{
    Error::new(ErrorKind::Type, msg, span)
}

/// Whether two floats, given by their bits, compare equal: no NaN equals anything,
/// and the zeros of both signs are equal.
pub open spec fn floats_equal(a: u64, b: u64) -> bool {
    !is_nan(a) && !is_nan(b) && (a == b || (is_zero(a) && is_zero(b)))
}

pub open spec fn is_nan(a: u64) -> bool {
    a % 0x8000_0000_0000_0000 > 0x7ff0_0000_0000_0000
}

pub open spec fn is_zero(a: u64) -> bool {
    a % 0x8000_0000_0000_0000 == 0
}

/// Whether two constants are the same entry of a pool.
pub open spec fn const_same(a: ConstView, b: ConstView) -> bool {
    match (a, b) {
        (ConstView::Float(x), ConstView::Float(y)) => floats_equal(x, y),
        _ => a == b,
    }
}

fn same_const(a: &Const, b: &Const) -> (r: bool)
    ensures
        r == const_same(a@, b@),
{
    match (a, b) {
        (Const::Int(x), Const::Int(y)) => x.same(y),
        (Const::UInt(x), Const::UInt(y)) => x.same(y),
        (Const::Float(x), Const::Float(y)) => {
            let m: u64 = 0x8000_0000_0000_0000;
            let nan = *x % m > 0x7ff0_0000_0000_0000 || *y % m > 0x7ff0_0000_0000_0000;
            !nan && (*x == *y || (*x % m == 0 && *y % m == 0))
        },
        (Const::I32(x), Const::I32(y)) => *x == *y,
        (Const::U32(x), Const::U32(y)) => *x == *y,
        (Const::U64(x), Const::U64(y)) => *x == *y,
        (Const::U128(x), Const::U128(y)) => *x == *y,
        (Const::Bool(x), Const::Bool(y)) => *x == *y,
        (Const::Str(x), Const::Str(y)) => same(x.as_str(), y.as_str()),
        _ => false,
    }
}

/// The first place of a constant in a pool, from the `i`-th on.
pub open spec fn const_at(s: Seq<ConstView>, c: ConstView, i: nat) -> Option<int>
    decreases s.len() - i,
{
    if i >= s.len() {
        None
    } else if const_same(s[i as int], c) {
        Some(i as int)
    } else {
        const_at(s, c, i + 1)
    }
}

/// The number of a constant in the pool: its place, or that after the last.
pub open spec fn const_index(b: BuilderView, c: ConstView) -> u16 {
    match const_at(b.consts, c, 0) {
        Some(k) => k as u16,
        None => b.consts.len() as u16,
    }
}

/// The state with a constant in the pool.
pub open spec fn with_const(b: BuilderView, c: ConstView) -> BuilderView {
    match const_at(b.consts, c, 0) {
        Some(k) => b,
        None => BuilderView { consts: b.consts.push(c), ..b },
    }
}

/// Whether no constant stands twice in a pool.
pub open spec fn pooled_once(s: Seq<ConstView>) -> bool {
    forall|i: int, j: int| 0 <= i < j < s.len() ==> !const_same(#[trigger] s[i], #[trigger] s[j])
}

proof fn lemma_const_at(s: Seq<ConstView>, c: ConstView, i: nat)
    ensures
        match const_at(s, c, i) {
            Some(k) => i <= k < s.len() && const_same(s[k], c),
            None => forall|j: int| i <= j < s.len() ==> !const_same(#[trigger] s[j], c),
        },
    decreases s.len() - i,
{
    if i < s.len() && !const_same(s[i as int], c) {
        lemma_const_at(s, c, i + 1);
    }
}

pub open spec fn emitted(b: BuilderView, i: Instr) -> BuilderView {
    BuilderView { code: b.code.push(i), ..b }
}

/// The state with `n` more registers in use, and the first of them.
pub open spec fn allocated(b: BuilderView, n: nat, name: Seq<char>, span: Span) -> Result<
    (u16, BuilderView),
    ErrorView,
> {
    if b.next + n > u16::MAX {
        Err(type_error("function '"@ + name + "' needs too many registers"@, span))
    } else {
        let next = (b.next + n) as u16;
        Ok((b.next, BuilderView { next, max: if next > b.max { next } else { b.max }, ..b }))
    }
}

/// The state after a register is given back; only the topmost one is.
pub open spec fn freed(b: BuilderView, r: u16) -> BuilderView {
    if r + 1 == b.next {
        BuilderView { next: r, ..b }
    } else {
        b
    }
}

/// The state after the `n` topmost registers are given back.
pub open spec fn dropped(b: BuilderView, n: nat) -> BuilderView {
    BuilderView { next: (b.next - n) as u16, ..b }
}

pub open spec fn restored(b: BuilderView, next: u16) -> BuilderView {
    BuilderView { next, ..b }
}

/// The offset of a jump at `pos` to `target`: an offset of 0 falls through.
pub open spec fn offset_to(pos: nat, target: nat) -> i32 {
    (target - pos - 1) as i32
}

/// The state with the jump at `pos` sent to `target`.
pub open spec fn patched(b: BuilderView, pos: nat, target: nat) -> BuilderView {
    if pos < b.code.len() {
        BuilderView {
            code: b.code.update(pos as int, retargeted(b.code[pos as int], offset_to(pos, target))),
            ..b
        }
    } else {
        b
    }
}

/// The state with the first `n` of the jumps at `s` sent to `target`.
pub open spec fn patched_all(b: BuilderView, s: Seq<usize>, n: nat, target: nat) -> BuilderView
    decreases n,
{
    if n == 0 || n > s.len() {
        b
    } else {
        patched(patched_all(b, s, (n - 1) as nat, target), s[n - 1] as nat, target)
    }
}

pub open spec fn scope_opened(b: BuilderView) -> BuilderView {
    BuilderView { scopes: b.scopes.push(Map::empty()), ..b }
}

pub open spec fn scope_closed(b: BuilderView) -> BuilderView {
    BuilderView { scopes: b.scopes.drop_last(), ..b }
}

/// The state with a name in the innermost scope.
pub open spec fn bound(b: BuilderView, name: Seq<char>, r: u16) -> BuilderView {
    BuilderView {
        scopes: b.scopes.update(b.scopes.len() - 1, b.scopes.last().insert(name, r)),
        ..b
    }
}

/// The register of a local: that of the innermost scope with the name.
pub open spec fn local_reg(s: Seq<ScopeRegs>, name: Seq<char>) -> Option<u16>
    decreases s.len(),
{
    if s.len() == 0 {
        None
    } else if s.last().contains_key(name) {
        Some(s.last()[name])
    } else {
        local_reg(s.drop_last(), name)
    }
}

/// With no local in sight.
pub open spec fn without_locals(b: BuilderView) -> BuilderView {
    BuilderView { scopes: seq![], ..b }
}

/// With the locals of another state.
pub open spec fn with_locals_of(b: BuilderView, a: BuilderView) -> BuilderView {
    BuilderView { scopes: a.scopes, ..b }
}

pub open spec fn pipe_opened(b: BuilderView, r: u16) -> BuilderView {
    BuilderView { pipes: b.pipes.push(r), ..b }
}

pub open spec fn pipe_closed(b: BuilderView) -> BuilderView {
    BuilderView { pipes: b.pipes.drop_last(), ..b }
}

/// The register of the innermost pipe.
pub open spec fn last_pipe(b: BuilderView) -> Option<u16> {
    if b.pipes.len() == 0 {
        None
    } else {
        Some(b.pipes.last())
    }
}

pub open spec fn loop_opened(b: BuilderView) -> BuilderView {
    BuilderView { loops: b.loops.push(LoopView { breaks: seq![], continues: seq![] }), ..b }
}

pub open spec fn loop_closed(b: BuilderView) -> BuilderView {
    BuilderView { loops: b.loops.drop_last(), ..b }
}

/// The state with a jump out of the innermost loop, to be sent there later.
pub open spec fn with_break(b: BuilderView) -> BuilderView {
    let f = b.loops.last();
    BuilderView {
        code: b.code.push(Instr::Jump { offset: 0 }),
        loops: b.loops.update(
            b.loops.len() - 1,
            LoopView { breaks: f.breaks.push(b.code.len() as usize), ..f },
        ),
        ..b
    }
}

/// The state with a jump to the next round of the innermost loop.
pub open spec fn with_continue(b: BuilderView) -> BuilderView {
    let f = b.loops.last();
    BuilderView {
        code: b.code.push(Instr::Jump { offset: 0 }),
        loops: b.loops.update(
            b.loops.len() - 1,
            LoopView { continues: f.continues.push(b.code.len() as usize), ..f },
        ),
        ..b
    }
}

/// The first place of a path in the list, from the `i`-th on.
pub open spec fn path_at(s: Seq<PathView>, state_idx: u16, path: Seq<Seq<char>>, i: nat) -> Option<int>
    decreases s.len() - i,
{
    if i >= s.len() {
        None
    } else if s[i as int].state_idx == state_idx && s[i as int].path == path {
        Some(i as int)
    } else {
        path_at(s, state_idx, path, i + 1)
    }
}

/// The number of a path: its place, or that after the last.
pub open spec fn path_number(b: BuilderView, p: PathView) -> u16 {
    match path_at(b.paths, p.state_idx, p.path, 0) {
        Some(k) => k as u16,
        None => b.paths.len() as u16,
    }
}

/// The state with a path in the list.
pub open spec fn with_path(b: BuilderView, p: PathView) -> BuilderView {
    match path_at(b.paths, p.state_idx, p.path, 0) {
        Some(k) => b,
        None => BuilderView { paths: b.paths.push(p), ..b },
    }
}

/// Whether every register that an instruction names lies below `n`.
pub open spec fn registers_below(i: Instr, n: u16) -> bool {
    match i {
        Instr::LoadConst { dst, idx } => dst < n,
        Instr::Move { dst, src } => dst < n && src < n,
        Instr::Bin { op, dst, lhs, rhs } => dst < n && lhs < n && rhs < n,
        Instr::Un { op, dst, src } => dst < n && src < n,
        Instr::Jump { offset } => true,
        Instr::JumpIfFalse { cond, offset } => cond < n,
        Instr::Call { dst, fn_idx, args_start, n_args } => dst < n && args_start + n_args <= n,
        Instr::CallHost { dst, import_idx, args_start, n_args } => dst < n && args_start + n_args <= n,
        Instr::CallExternal { dst, module_name_idx, fn_name_idx, args_start, n_args, is_view, is_pure } => dst < n
            && args_start + n_args <= n,
        Instr::MakeInterface { dst, iface_name_idx, target_reg } => dst < n && target_reg < n,
        Instr::CallExternalDyn { dst, target_reg, fn_name_idx, args_start, n_args, is_view, is_pure } => dst < n
            && target_reg < n
            && args_start + n_args <= n,
        Instr::Return { src } => src < n,
        Instr::ReturnUnit => true,
        Instr::BuiltinResource { dst, src } => dst < n && src < n,
        Instr::BuiltinUnwrap { dst, src } => dst < n && src < n,
        Instr::BuiltinAddress { dst, src } => dst < n && src < n,
        Instr::BuiltinLen { dst, src } => dst < n && src < n,
        Instr::Convert { dst, src, target } => dst < n && src < n,
        Instr::MakeArray { dst, args_start, n: count } => dst < n && args_start + count <= n,
        Instr::ArrayGet { dst, arr, idx } => dst < n && arr < n && idx < n,
        Instr::ArrayAppend { dst, arr, elem } => dst < n && arr < n && elem < n,
        Instr::MakeSet { dst, args_start, n: count } => dst < n && args_start + count <= n,
        Instr::MakeDict { dst, args_start, n_pairs } => dst < n && args_start + 2 * n_pairs <= n,
        Instr::BuiltinCall { dst, name_idx, args_start, n_args } => dst < n && args_start + n_args <= n,
        Instr::MakeStruct { dst, shape_idx, args_start, n: count } => dst < n && args_start + count <= n,
        Instr::FieldGet { dst, src, name_idx } => dst < n && src < n,
        Instr::FieldSet { dst, name_idx, val } => dst < n && val < n,
        Instr::KvGet { dst, key_idx } => dst < n,
        Instr::KvPut { src, key_idx } => src < n,
        Instr::KvGetPath { dst, path_idx } => dst < n,
        Instr::KvPutPath { src, path_idx } => src < n,
        Instr::ReadBatch { group_idx } => true,
        Instr::PrefetchMap { arr_reg, state_idx } => arr_reg < n,
        Instr::Emit { value } => value < n,
        Instr::Context { dst, kind } => dst < n,
        Instr::MakeTuple { dst, args_start, n: count } => dst < n && args_start + count <= n,
        Instr::TupleGet { dst, src, index } => dst < n && src < n,
        Instr::MakeEnum { dst, shape_idx, variant_idx, args_start, n: count } => dst < n
            && args_start + count <= n,
        Instr::EnumTag { dst, src } => dst < n && src < n,
        Instr::EnumPayload { dst, src, index } => dst < n && src < n,
        Instr::MapGet { dst, state_idx, key_reg } => dst < n && key_reg < n,
        Instr::MapPut { state_idx, key_reg, src } => key_reg < n && src < n,
        Instr::PMapGet { dst, state_idx, key_reg } => dst < n && key_reg < n,
        Instr::PMapPut { state_idx, key_reg, src } => key_reg < n && src < n,
        Instr::PMapContains { dst, state_idx, key_reg } => dst < n && key_reg < n,
        Instr::PVecGet { dst, state_idx, idx_reg } => dst < n && idx_reg < n,
        Instr::PVecSet { state_idx, idx_reg, src } => idx_reg < n && src < n,
        Instr::PVecPush { dst, state_idx, src } => dst < n && src < n,
        Instr::PVecLen { dst, state_idx } => dst < n,
        Instr::PMapEntries { dst, state_idx } => dst < n,
        Instr::PMapKeys { dst, state_idx } => dst < n,
        Instr::PMapValues { dst, state_idx } => dst < n,
        Instr::PVecToArray { dst, state_idx } => dst < n,
        Instr::PMapAppendUnique { state_idx, key_reg, elem_reg } => key_reg < n && elem_reg < n,
        Instr::PMapPutUnique { state_idx, key_reg, src } => key_reg < n && src < n,
        Instr::PMapWalkInit { dst, state_idx } => dst < n,
        Instr::PMapWalkNext { cursor_reg, value_reg, end_offset } => cursor_reg < n && value_reg < n,
        Instr::PBTreeGet { dst, state_idx, key_reg } => dst < n && key_reg < n,
        Instr::PBTreePut { state_idx, key_reg, src } => key_reg < n && src < n,
        Instr::PBTreeContains { dst, state_idx, key_reg } => dst < n && key_reg < n,
        Instr::PBTreeRange { dst, state_idx, lo_reg, hi_reg } => dst < n && lo_reg < n && hi_reg < n,
        Instr::PBTreeWalkInit { dst, state_idx } => dst < n,
        Instr::PBTreeWalkNext { cursor_reg, value_reg, end_offset } => cursor_reg < n && value_reg < n,
        Instr::PBTreePutUnique { state_idx, key_reg, src } => key_reg < n && src < n,
        Instr::PBTreeAppendUnique { state_idx, key_reg, elem_reg } => key_reg < n && elem_reg < n,
        Instr::PMapDelete { state_idx, key_reg } => key_reg < n,
        Instr::PBTreeDelete { state_idx, key_reg } => key_reg < n,
        Instr::PMapRemoveUnique { state_idx, key_reg, expected_reg } => key_reg < n && expected_reg < n,
        Instr::PMapRemoveFromList { state_idx, key_reg, elem_reg } => key_reg < n && elem_reg < n,
        Instr::PBTreeRemoveUnique { state_idx, key_reg, expected_reg } => key_reg < n && expected_reg < n,
        Instr::PBTreeRemoveFromList { state_idx, key_reg, elem_reg } => key_reg < n && elem_reg < n,
        Instr::IncReg { reg } => reg < n,
    }
}

/// What holds of every state: the registers in the code, in the scopes and in the
/// pipes lie below the number that the function needs, and no constant is pooled
/// twice.
pub closed spec fn sound(b: BuilderView) -> bool {
    &&& b.next <= b.max
    &&& lands_inside(b.code)
    &&& forall|i: int| 0 <= i < b.code.len() ==> registers_below(#[trigger] b.code[i], b.max)
    &&& forall|i: int, name: Seq<char>|
        0 <= i < b.scopes.len() && #[trigger] b.scopes[i].contains_key(name) ==> b.scopes[i][name] < b.max
    &&& forall|i: int| 0 <= i < b.pipes.len() ==> #[trigger] b.pipes[i] < b.max
    &&& pooled_once(b.consts)
}

/// Whether every jump lands in the code or at its end, and no reads go out as a
/// batch; code that is longer than a jump can reach is not meant.
pub open spec fn lands_inside(code: Seq<Instr>) -> bool {
    code.len() <= i32::MAX ==> well_linked(code, 0)
}

/// Whether an instruction is no batch and, if it jumps, falls through for now.
pub open spec fn falls_through(i: Instr) -> bool {
    !(i is ReadBatch) && (leap_of(i) matches Some(offset) ==> offset == 0)
}

proof fn lemma_emitted_lands(code: Seq<Instr>, i: Instr)
    requires
        lands_inside(code),
        falls_through(i),
    ensures
        lands_inside(code.push(i)),
{
    let more = code.push(i);
    if more.len() <= i32::MAX {
        assert forall|k: int| 0 <= k < more.len() implies match #[trigger] more[k] {
            Instr::ReadBatch { group_idx } => group_idx < 0,
            x => match leap_of(x) {
                Some(offset) => 0 <= k + 1 + offset <= more.len(),
                None => true,
            },
        } by {
            if k < code.len() {
                assert(more[k] == code[k]);
            }
        }
    }
}

proof fn lemma_patched_lands(code: Seq<Instr>, pos: int, target: nat)
    requires
        lands_inside(code),
        0 <= pos < code.len(),
        target <= code.len(),
    ensures
        lands_inside(code.update(pos, retargeted(code[pos], offset_to(pos as nat, target)))),
{
    let more = code.update(pos, retargeted(code[pos], offset_to(pos as nat, target)));
    if more.len() <= i32::MAX {
        assert forall|k: int| 0 <= k < more.len() implies match #[trigger] more[k] {
            Instr::ReadBatch { group_idx } => group_idx < 0,
            x => match leap_of(x) {
                Some(offset) => 0 <= k + 1 + offset <= more.len(),
                None => true,
            },
        } by {
            assert(match code[k] {
                Instr::ReadBatch { group_idx } => group_idx < 0,
                x => match leap_of(x) {
                    Some(offset) => 0 <= k + 1 + offset <= code.len(),
                    None => true,
                },
            });
        }
    }
}

/// In a function under compilation every register that the code names lies below
/// the number of registers that the function will be given, no constant stands in
/// the pool twice, and jumps land in the code.
pub proof fn code_stays_in_its_frame(b: BuilderView)
    requires
        sound(b),
    ensures
        forall|i: int| 0 <= i < b.code.len() ==> registers_below(#[trigger] b.code[i], b.max),
        pooled_once(b.consts),
        lands_inside(b.code),
        b.next <= b.max,
{
}

/// Whether a step gave back no register that it did not take, and closed what it
/// opened.
pub open spec fn grown(a: BuilderView, b: BuilderView) -> bool {
    &&& a.next <= b.next
    &&& a.max <= b.max
    &&& a.scopes.len() == b.scopes.len()
    &&& a.pipes.len() == b.pipes.len()
    &&& a.loops.len() == b.loops.len()
    &&& a.code.len() <= b.code.len()
}

/// Whether a step gave the state or the error that is owed.
pub open spec fn built(r: Result<(), Error>, before: BuilderView, after: BuilderView, want: Built) -> bool {
    match want {
        Ok(w) => r is Ok && after == w && sound(after) && grown(before, after),
        Err(x) => match r {
            Ok(_) => false,
            Err(e) => e@ == x,
        },
    }
}

/// What is sound stays so without its locals, and with them once they are back.
pub(crate) proof fn lemma_locals_aside(a: BuilderView, b: BuilderView)
    requires
        sound(a),
    ensures
        sound(without_locals(a)),
        sound(b) && a.max <= b.max ==> sound(with_locals_of(b, a)),
{
    if sound(b) && a.max <= b.max {
        let c = with_locals_of(b, a);
        assert forall|i: int, name: Seq<char>|
            0 <= i < c.scopes.len() && #[trigger] c.scopes[i].contains_key(name) implies c.scopes[i][name] < c.max by {
            assert(a.scopes[i].contains_key(name));
        }
    }
}

proof fn lemma_scope_reg(s: Seq<(String, u16)>, name: Seq<char>)
    ensures
        match place(s, name) {
            Some(k) => scope_regs(s).contains_key(name) && scope_regs(s)[name] == s[k].1,
            None => !scope_regs(s).contains_key(name),
        },
    decreases s.len(),
{
    if s.len() > 0 {
        lemma_scope_reg(s.drop_last(), name);
        lemma_place(s, name);
        lemma_place(s.drop_last(), name);
    }
}

proof fn lemma_local_below(s: Seq<ScopeRegs>, name: Seq<char>, n: u16)
    requires
        forall|i: int, name: Seq<char>|
            0 <= i < s.len() && #[trigger] s[i].contains_key(name) ==> s[i][name] < n,
    ensures
        match local_reg(s, name) {
            Some(r) => r < n,
            None => true,
        },
    decreases s.len(),
{
    if s.len() > 0 && !s.last().contains_key(name) {
        assert forall|i: int, name: Seq<char>|
            0 <= i < s.drop_last().len()
                && #[trigger] s.drop_last()[i].contains_key(name) implies s.drop_last()[i][name]
            < n by {
            assert(s[i].contains_key(name));
        }
        lemma_local_below(s.drop_last(), name, n);
    }
}

/// The state at the start of a function.
pub open spec fn begun(next: u16, paths: Seq<PathView>, seen: usize) -> BuilderView {
    BuilderView {
        code: seq![],
        consts: seq![],
        next,
        max: next,
        scopes: seq![Map::empty()],
        pipes: seq![],
        loops: seq![],
        paths,
        seen,
    }
}

impl Builder {
    /// Begins a function that uses its first registers for its parameters, after
    /// others that have named these paths.
    pub(crate) fn begin(next_reg: u16, paths: Vec<PathEntry>, seen: usize) -> (r: Builder)
        ensures
            r@ == begun(next_reg, path_views(paths@), seen),
            sound(r@),
    {
        let mut scopes: Vec<Vec<(String, u16)>> = Vec::new();
        scopes.push(Vec::new());
        let r = Builder {
            code: Vec::new(),
            consts: Vec::new(),
            next_reg,
            max_reg: next_reg,
            scopes,
            pipe_stack: Vec::new(),
            loop_stack: Vec::new(),
            paths,
            seen,
        };
        assert(r@.consts =~= seq![]);
        assert(r@.loops =~= seq![]);
        assert(r@.scopes =~= seq![Map::empty()]);
        r
    }

    pub(crate) fn take_regs(&mut self, n: usize, name: &str, span: Span) -> (r: Result<u16, Error>)
        requires
            sound(old(self)@),
        ensures
            match allocated(old(self)@, n as nat, name@, span) {
                Ok((x, b)) => r == Ok::<u16, Error>(x) && final(self)@ == b && sound(b) && grown(
                    old(self)@,
                    b,
                ) && x + n == b.next && b.next <= b.max,
                Err(x) => match r {
                    Ok(_) => false,
                    Err(e) => e@ == x,
                },
            },
    {
        let ghost before = self@;
        if n > 0xffff || self.next_reg as usize + n > 0xffff {
            return Err(
                type_err(concat3("function '", name, "' needs too many registers"), span),
            );
        }
        let r: u16 = self.next_reg;
        self.next_reg = r + n as u16;
        if self.next_reg > self.max_reg {
            self.max_reg = self.next_reg;
        }
        assert(self@ =~= allocated(before, n as nat, name@, span)->Ok_0.1);
        assert forall|i: int| 0 <= i < self@.code.len() implies registers_below(
            #[trigger] self@.code[i],
            self@.max,
        ) by {
            assert(registers_below(before.code[i], before.max));
        }
        Ok(r)
    }

    /// Takes two registers for each of `n` pairs.
    pub(crate) fn take_pairs(&mut self, n: usize, name: &str, span: Span) -> (r: Result<u16, Error>)
        requires
            sound(old(self)@),
        ensures
            match allocated(old(self)@, (2 * n) as nat, name@, span) {
                Ok((x, b)) => r == Ok::<u16, Error>(x) && final(self)@ == b && sound(b) && grown(
                    old(self)@,
                    b,
                ) && x + 2 * n == b.next && b.next <= b.max,
                Err(x) => match r {
                    Ok(_) => false,
                    Err(e) => e@ == x,
                },
            },
    {
        if n > 0xffff {
            return Err(
                type_err(concat3("function '", name, "' needs too many registers"), span),
            );
        }
        self.take_regs(2 * n, name, span)
    }

    /// Counts one more loop over an array.
    pub(crate) fn skip_plan(&mut self)
        requires
            sound(old(self)@),
            old(self)@.seen < usize::MAX,
        ensures
            final(self)@ == (BuilderView { seen: (old(self)@.seen + 1) as usize, ..old(self)@ }),
            sound(final(self)@),
    {
        let ghost before = self@;
        self.seen = self.seen + 1;
        assert(self@ =~= BuilderView { seen: (before.seen + 1) as usize, ..before });
    }

    pub(crate) fn find_pipe(&self) -> (r: Option<u16>)
        requires
            sound(self@),
        ensures
            r == last_pipe(self@),
            match r {
                Some(x) => x < self@.max,
                None => true,
            },
    {
        let n: usize = self.pipe_stack.len();
        if n == 0 {
            None
        } else {
            assert(self@.pipes[n - 1] < self@.max);
            Some(self.pipe_stack[n - 1])
        }
    }

    pub(crate) fn free(&mut self, r: u16)
        requires
            sound(old(self)@),
        ensures
            final(self)@ == freed(old(self)@, r),
            sound(final(self)@),
    {
        if r < 0xffff && r + 1 == self.next_reg {
            self.next_reg = r;
        }
    }

    pub(crate) fn drop_regs(&mut self, n: usize)
        requires
            sound(old(self)@),
            n <= old(self)@.next,
        ensures
            final(self)@ == dropped(old(self)@, n as nat),
            final(self)@.next == old(self)@.next - n,
            sound(final(self)@),
    {
        self.next_reg = self.next_reg - n as u16;
    }

    pub(crate) fn restore(&mut self, next: u16)
        requires
            sound(old(self)@),
            next <= old(self)@.next,
        ensures
            final(self)@ == restored(old(self)@, next),
            sound(final(self)@),
    {
        let ghost before = self@;
        self.next_reg = next;
        assert(self@ =~= restored(before, next));
        assert(sound(self@));
    }

    pub(crate) fn emit(&mut self, i: Instr)
        requires
            sound(old(self)@),
            registers_below(i, old(self)@.max),
            falls_through(i),
        ensures
            final(self)@ == emitted(old(self)@, i),
            sound(final(self)@),
    {
        let ghost before = self@;
        proof {
            lemma_emitted_lands(self@.code, i);
        }
        self.code.push(i);
        assert(self@ =~= emitted(before, i));
        assert forall|j: int| 0 <= j < self@.code.len() implies registers_below(
            #[trigger] self@.code[j],
            self@.max,
        ) by {
            if j < before.code.len() {
                assert(registers_below(before.code[j], before.max));
            }
        }
    }

    pub(crate) fn const_idx(&mut self, c: Const) -> (r: u16)
        requires
            sound(old(self)@),
        ensures
            r == const_index(old(self)@, c@),
            final(self)@ == with_const(old(self)@, c@),
            sound(final(self)@),
    {
        let ghost before = self@;
        let mut i: usize = 0;
        proof {
            lemma_const_at(before.consts, c@, 0);
        }
        while i < self.consts.len()
            invariant
                i <= self.consts@.len(),
                self@ == before,
                before.consts.len() == self.consts@.len(),
                const_at(before.consts, c@, 0) == const_at(before.consts, c@, i as nat),
                sound(before),
            decreases self.consts@.len() - i,
        {
            assert(before.consts[i as int] == self.consts@[i as int]@);
            if same_const(&self.consts[i], &c) {
                return i as u16;
            }
            i = i + 1;
        }
        let ghost v = c@;
        let k: u16 = self.consts.len() as u16;
        self.consts.push(c);
        assert(self@.consts =~= before.consts.push(v));
        assert(pooled_once(self@.consts));
        k
    }

    pub(crate) fn patch(&mut self, pos: usize, target: usize)
        requires
            sound(old(self)@),
            target <= old(self)@.code.len(),
        ensures
            final(self)@ == patched(old(self)@, pos as nat, target as nat),
            final(self)@.code.len() == old(self)@.code.len(),
            sound(final(self)@),
    {
        let ghost before = self@;
        if pos < self.code.len() {
            let to: i32 = #[verifier::truncate] ((target as i128 - pos as i128 - 1) as i32);
            let i: Instr = match self.code[pos] {
                Instr::Jump { offset: _ } => Instr::Jump { offset: to },
                Instr::JumpIfFalse { cond, offset: _ } => Instr::JumpIfFalse { cond, offset: to },
                Instr::PMapWalkNext { cursor_reg, value_reg, end_offset: _ } => Instr::PMapWalkNext {
                    cursor_reg,
                    value_reg,
                    end_offset: to,
                },
                Instr::PBTreeWalkNext { cursor_reg, value_reg, end_offset: _ } => Instr::PBTreeWalkNext {
                    cursor_reg,
                    value_reg,
                    end_offset: to,
                },
                other => other,
            };
            proof {
                lemma_patched_lands(self@.code, pos as int, target as nat);
            }
            self.code.set(pos, i);
            assert(self@ =~= patched(before, pos as nat, target as nat));
            assert forall|j: int| 0 <= j < self@.code.len() implies registers_below(
                #[trigger] self@.code[j],
                self@.max,
            ) by {
                assert(registers_below(before.code[j], before.max));
            }
        }
    }

    pub(crate) fn patch_all(&mut self, s: &Vec<usize>, target: usize)
        requires
            sound(old(self)@),
            target <= old(self)@.code.len(),
        ensures
            final(self)@ == patched_all(old(self)@, s@, s@.len(), target as nat),
            sound(final(self)@),
            grown(old(self)@, final(self)@),
            final(self)@.next == old(self)@.next,
            final(self)@.code.len() == old(self)@.code.len(),
            final(self)@.loops == old(self)@.loops,
            final(self)@.scopes == old(self)@.scopes,
    {
        let ghost before = self@;
        let mut i: usize = 0;
        while i < s.len()
            invariant
                i <= s@.len(),
                self@ == patched_all(before, s@, i as nat, target as nat),
                sound(self@),
                grown(before, self@),
                self@.next == before.next,
                self@.code.len() == before.code.len(),
                target <= before.code.len(),
                self@.loops == before.loops,
                self@.scopes == before.scopes,
            decreases s@.len() - i,
        {
            self.patch(s[i], target);
            i = i + 1;
        }
    }

    pub(crate) fn open_scope(&mut self)
        requires
            sound(old(self)@),
        ensures
            final(self)@ == scope_opened(old(self)@),
            sound(final(self)@),
    {
        let ghost before = self@;
        let s: Vec<(String, u16)> = Vec::new();
        self.scopes.push(s);
        assert(self@.scopes =~= before.scopes.push(Map::empty()));
    }

    pub(crate) fn close_scope(&mut self)
        requires
            sound(old(self)@),
            old(self)@.scopes.len() > 0,
        ensures
            final(self)@ == scope_closed(old(self)@),
            sound(final(self)@),
    {
        let ghost before = self@;
        let _ = self.scopes.pop();
        assert(self@.scopes =~= before.scopes.drop_last());
        assert forall|i: int, name: Seq<char>|
            0 <= i < self@.scopes.len()
                && #[trigger] self@.scopes[i].contains_key(name) implies self@.scopes[i][name]
            < self@.max by {
            assert(before.scopes[i].contains_key(name));
        }
    }

    pub(crate) fn bind(&mut self, name: &str, r: u16)
        requires
            sound(old(self)@),
            old(self)@.scopes.len() > 0,
            r < old(self)@.max,
        ensures
            final(self)@ == bound(old(self)@, name@, r),
            sound(final(self)@),
    {
        let ghost before = self@;
        let i: usize = self.scopes.len() - 1;
        let ghost s0 = self.scopes@[i as int]@;
        self.scopes[i].push((text(name), r));
        assert(self.scopes@[i as int]@.drop_last() =~= s0);
        assert(self@.scopes =~= bound(before, name@, r).scopes);
        assert forall|i: int, n: Seq<char>|
            0 <= i < self@.scopes.len()
                && #[trigger] self@.scopes[i].contains_key(n) implies self@.scopes[i][n]
            < self@.max by {
            if n != name@ || i < before.scopes.len() - 1 {
                assert(before.scopes[i].contains_key(n));
            }
        }
    }

    pub(crate) fn lookup_local(&self, name: &str) -> (r: Option<u16>)
        requires
            sound(self@),
        ensures
            r == local_reg(self@.scopes, name@),
            match r {
                Some(x) => x < self@.max,
                None => true,
            },
    {
        let mut i: usize = self.scopes.len();
        let ghost all = self@.scopes;
        assert(all.take(i as int) =~= all);
        proof {
            lemma_local_below(all, name@, self@.max);
        }
        while i > 0
            invariant
                i <= self.scopes@.len(),
                all == self@.scopes,
                local_reg(all, name@) == local_reg(all.take(i as int), name@),
                match local_reg(all, name@) {
                    Some(x) => x < self@.max,
                    None => true,
                },
            decreases i,
        {
            i = i - 1;
            assert(all.take(i as int + 1).drop_last() =~= all.take(i as int));
            assert(all.take(i as int + 1).last() == all[i as int]);
            proof {
                lemma_scope_reg(self.scopes@[i as int]@, name@);
            }
            match find_last(&self.scopes[i], name) {
                Some(k) => return Some(self.scopes[i][k].1),
                None => {},
            }
        }
        None
    }

    pub(crate) fn push_pipe(&mut self, r: u16)
        requires
            sound(old(self)@),
            r < old(self)@.max,
        ensures
            final(self)@ == pipe_opened(old(self)@, r),
            sound(final(self)@),
    {
        let ghost before = self@;
        self.pipe_stack.push(r);
        assert(self@ =~= pipe_opened(before, r));
        assert forall|i: int| 0 <= i < self@.pipes.len() implies #[trigger] self@.pipes[i] < self@.max by {
            if i < before.pipes.len() {
                assert(self@.pipes[i] == before.pipes[i]);
            }
        }
    }

    pub(crate) fn pop_pipe(&mut self)
        requires
            sound(old(self)@),
            old(self)@.pipes.len() > 0,
        ensures
            final(self)@ == pipe_closed(old(self)@),
            sound(final(self)@),
    {
        let ghost before = self@;
        let _ = self.pipe_stack.pop();
        assert(self@ =~= pipe_closed(before));
        assert forall|i: int| 0 <= i < self@.pipes.len() implies #[trigger] self@.pipes[i] < self@.max by {
            assert(self@.pipes[i] == before.pipes[i]);
        }
    }

    pub(crate) fn push_loop(&mut self)
        requires
            sound(old(self)@),
        ensures
            final(self)@ == loop_opened(old(self)@),
            sound(final(self)@),
    {
        let ghost before = self@;
        self.loop_stack.push(LoopFrame { break_jumps: Vec::new(), continue_jumps: Vec::new() });
        assert(self@.loops =~= loop_opened(before).loops);
    }

    pub(crate) fn pop_loop(&mut self) -> (r: LoopFrame)
        requires
            sound(old(self)@),
            old(self)@.loops.len() > 0,
        ensures
            final(self)@ == loop_closed(old(self)@),
            r.break_jumps@ == old(self)@.loops.last().breaks,
            r.continue_jumps@ == old(self)@.loops.last().continues,
            sound(final(self)@),
    {
        let ghost before = self@;
        let r = match self.loop_stack.pop() {
            Some(f) => f,
            None => LoopFrame { break_jumps: Vec::new(), continue_jumps: Vec::new() },
        };
        assert(self@.loops =~= before.loops.drop_last());
        r
    }

    pub(crate) fn push_break(&mut self)
        requires
            sound(old(self)@),
            old(self)@.loops.len() > 0,
        ensures
            final(self)@ == with_break(old(self)@),
            sound(final(self)@),
    {
        let ghost before = self@;
        let pos: usize = self.code.len();
        proof {
            lemma_emitted_lands(self@.code, Instr::Jump { offset: 0 });
        }
        self.code.push(Instr::Jump { offset: 0 });
        let i: usize = self.loop_stack.len() - 1;
        self.loop_stack[i].break_jumps.push(pos);
        assert(self@.loops =~= with_break(before).loops);
    }

    pub(crate) fn push_continue(&mut self)
        requires
            sound(old(self)@),
            old(self)@.loops.len() > 0,
        ensures
            final(self)@ == with_continue(old(self)@),
            sound(final(self)@),
    {
        let ghost before = self@;
        let pos: usize = self.code.len();
        proof {
            lemma_emitted_lands(self@.code, Instr::Jump { offset: 0 });
        }
        self.code.push(Instr::Jump { offset: 0 });
        let i: usize = self.loop_stack.len() - 1;
        self.loop_stack[i].continue_jumps.push(pos);
        assert(self@.loops =~= with_continue(before).loops);
    }

    pub(crate) fn intern_path(&mut self, state_idx: u16, path: Vec<String>, key: u128, ty: Type) -> (r: u16)
        requires
            sound(old(self)@),
        ensures
            r == path_number(
                old(self)@,
                (PathView { state_idx, path: names_of(path@), key, ty: type_view(ty), is_blob: false }),
            ),
            final(self)@ == with_path(
                old(self)@,
                (PathView { state_idx, path: names_of(path@), key, ty: type_view(ty), is_blob: false }),
            ),
            sound(final(self)@),
    {
        let ghost before = self@;
        let ghost names = names_of(path@);
        let mut i: usize = 0;
        while i < self.paths.len()
            invariant
                i <= self.paths@.len(),
                self@ == before,
                names == names_of(path@),
                before.paths.len() == self.paths@.len(),
                sound(before),
                path_at(before.paths, state_idx, names, 0) == path_at(
                    before.paths,
                    state_idx,
                    names,
                    i as nat,
                ),
            decreases self.paths@.len() - i,
        {
            assert(before.paths[i as int] == path_view(self.paths@[i as int]));
            if self.paths[i].state_idx == state_idx && same_names(&self.paths[i].path, &path) {
                return i as u16;
            }
            i = i + 1;
        }
        let k: u16 = self.paths.len() as u16;
        let ghost p = PathView { state_idx, path: names, key, ty: type_view(ty), is_blob: false };
        self.paths.push(
            PathEntry { state_idx, path, spec: PathSpec { leaf_key: key, leaf_type: ty, is_blob: false } },
        );
        assert(self@.paths =~= before.paths.push(p));
        k
    }
}

fn same_names(a: &Vec<String>, b: &Vec<String>) -> (r: bool)
    ensures
        r == (names_of(a@) == names_of(b@)),
{
    if a.len() != b.len() {
        assert(names_of(a@).len() != names_of(b@).len());
        return false;
    }
    let mut i: usize = 0;
    while i < a.len()
        invariant
            i <= a@.len() == b@.len(),
            forall|j: int| 0 <= j < i ==> a@[j]@ == b@[j]@,
        decreases a@.len() - i,
    {
        if !same(a[i].as_str(), b[i].as_str()) {
            assert(names_of(a@)[i as int] != names_of(b@)[i as int]);
            return false;
        }
        i = i + 1;
    }
    assert(names_of(a@) =~= names_of(b@));
    true
}

} // verus!
