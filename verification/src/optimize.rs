//! Optimization of bytecode: reads of state that can be issued together become
//! one batch.
//!
//! A cluster starts at a read of a whole state or of a field inside one, and
//! runs on until an instruction that could see or change what the reads do: one
//! that writes state, calls out, jumps or returns, one that a jump lands on, or
//! one that uses or writes a register that a read of the cluster is still to
//! fill. The reads of a cluster are issued together, in the place of its last
//! one; what stood between them keeps its order and comes before.

use vstd::prelude::*;
use crate::bc::{BcFn, BcModule, Instr, ReadOp};
use crate::effects::{EffectClass, EffectTable};
use crate::tables::{find_last, place};

verus! {

/// Whether a register is one of `n` from `start` on.
pub open spec fn among(r: u16, start: u16, n: int) -> bool {
    start <= r < start + n
}

fn is_among(r: u16, start: u16, n: u32) -> (b: bool)
    requires
        n <= 131070,
    ensures
        b == among(r, start, n as int),
{
    start <= r && (r as u32) < start as u32 + n
}

/// Whether an instruction uses what a register holds.
pub open spec fn uses(i: Instr, r: u16) -> bool {
    match i {
        Instr::Move { src, .. } => src == r,
        Instr::Bin { lhs, rhs, .. } => lhs == r || rhs == r,
        Instr::Un { src, .. } => src == r,
        Instr::JumpIfFalse { cond, .. } => cond == r,
        Instr::Call { args_start, n_args, .. } => among(r, args_start, n_args as int),
        Instr::CallHost { args_start, n_args, .. } => among(r, args_start, n_args as int),
        Instr::CallExternal { args_start, n_args, .. } => among(r, args_start, n_args as int),
        Instr::BuiltinCall { args_start, n_args, .. } => among(r, args_start, n_args as int),
        Instr::CallExternalDyn { target_reg, args_start, n_args, .. } => target_reg == r || among(
            r,
            args_start,
            n_args as int,
        ),
        Instr::MakeInterface { target_reg, .. } => target_reg == r,
        Instr::Return { src } => src == r,
        Instr::ArrayGet { arr, idx, .. } => arr == r || idx == r,
        Instr::ArrayAppend { arr, elem, .. } => arr == r || elem == r,
        Instr::MakeArray { args_start, n, .. } => among(r, args_start, n as int),
        Instr::MakeStruct { args_start, n, .. } => among(r, args_start, n as int),
        Instr::MakeSet { args_start, n, .. } => among(r, args_start, n as int),
        Instr::MakeTuple { args_start, n, .. } => among(r, args_start, n as int),
        Instr::MakeEnum { args_start, n, .. } => among(r, args_start, n as int),
        Instr::MakeDict { args_start, n_pairs, .. } => among(r, args_start, n_pairs * 2),
        Instr::FieldGet { src, .. } => src == r,
        Instr::TupleGet { src, .. } => src == r,
        Instr::EnumTag { src, .. } => src == r,
        Instr::EnumPayload { src, .. } => src == r,
        Instr::KvPut { src, .. } => src == r,
        Instr::KvPutPath { src, .. } => src == r,
        Instr::Convert { src, .. } => src == r,
        Instr::BuiltinResource { src, .. } => src == r,
        Instr::BuiltinUnwrap { src, .. } => src == r,
        Instr::BuiltinAddress { src, .. } => src == r,
        Instr::BuiltinLen { src, .. } => src == r,
        Instr::PVecPush { src, .. } => src == r,
        Instr::FieldSet { dst, val, .. } => dst == r || val == r,
        Instr::MapGet { key_reg, .. } => key_reg == r,
        Instr::PMapGet { key_reg, .. } => key_reg == r,
        Instr::PMapContains { key_reg, .. } => key_reg == r,
        Instr::PBTreeGet { key_reg, .. } => key_reg == r,
        Instr::PBTreeContains { key_reg, .. } => key_reg == r,
        Instr::PMapDelete { key_reg, .. } => key_reg == r,
        Instr::PBTreeDelete { key_reg, .. } => key_reg == r,
        Instr::MapPut { key_reg, src, .. } => key_reg == r || src == r,
        Instr::PMapPut { key_reg, src, .. } => key_reg == r || src == r,
        Instr::PMapPutUnique { key_reg, src, .. } => key_reg == r || src == r,
        Instr::PBTreePut { key_reg, src, .. } => key_reg == r || src == r,
        Instr::PBTreePutUnique { key_reg, src, .. } => key_reg == r || src == r,
        Instr::PVecGet { idx_reg, .. } => idx_reg == r,
        Instr::PVecSet { idx_reg, src, .. } => idx_reg == r || src == r,
        Instr::PMapAppendUnique { key_reg, elem_reg, .. } => key_reg == r || elem_reg == r,
        Instr::PBTreeAppendUnique { key_reg, elem_reg, .. } => key_reg == r || elem_reg == r,
        Instr::PMapRemoveFromList { key_reg, elem_reg, .. } => key_reg == r || elem_reg == r,
        Instr::PBTreeRemoveFromList { key_reg, elem_reg, .. } => key_reg == r || elem_reg == r,
        Instr::PMapRemoveUnique { key_reg, expected_reg, .. } => key_reg == r || expected_reg == r,
        Instr::PBTreeRemoveUnique { key_reg, expected_reg, .. } => key_reg == r || expected_reg == r,
        Instr::PMapWalkNext { cursor_reg, .. } => cursor_reg == r,
        Instr::PBTreeWalkNext { cursor_reg, .. } => cursor_reg == r,
        Instr::PBTreeRange { lo_reg, hi_reg, .. } => lo_reg == r || hi_reg == r,
        Instr::PrefetchMap { arr_reg, .. } => arr_reg == r,
        Instr::Emit { value } => value == r,
        Instr::IncReg { reg } => reg == r,
        Instr::LoadConst { .. }
        | Instr::Jump { .. }
        | Instr::ReturnUnit
        | Instr::KvGet { .. }
        | Instr::KvGetPath { .. }
        | Instr::ReadBatch { .. }
        | Instr::Context { .. }
        | Instr::PVecLen { .. }
        | Instr::PMapEntries { .. }
        | Instr::PMapKeys { .. }
        | Instr::PMapValues { .. }
        | Instr::PVecToArray { .. }
        | Instr::PMapWalkInit { .. }
        | Instr::PBTreeWalkInit { .. } => false,
    }
}

#[verifier::rlimit(30)]
fn uses_reg(i: &Instr, r: u16) -> (b: bool)
    ensures
        b == uses(*i, r),
{
    match *i {
        Instr::Move { src, .. } => src == r,
        Instr::Bin { lhs, rhs, .. } => lhs == r || rhs == r,
        Instr::Un { src, .. } => src == r,
        Instr::JumpIfFalse { cond, .. } => cond == r,
        Instr::Call { args_start, n_args, .. } => is_among(r, args_start, n_args as u32),
        Instr::CallHost { args_start, n_args, .. } => is_among(r, args_start, n_args as u32),
        Instr::CallExternal { args_start, n_args, .. } => is_among(r, args_start, n_args as u32),
        Instr::BuiltinCall { args_start, n_args, .. } => is_among(r, args_start, n_args as u32),
        Instr::CallExternalDyn { target_reg, args_start, n_args, .. } => target_reg == r || is_among(
            r,
            args_start,
            n_args as u32,
        ),
        Instr::MakeInterface { target_reg, .. } => target_reg == r,
        Instr::Return { src } => src == r,
        Instr::ArrayGet { arr, idx, .. } => arr == r || idx == r,
        Instr::ArrayAppend { arr, elem, .. } => arr == r || elem == r,
        Instr::MakeArray { args_start, n, .. } => is_among(r, args_start, n as u32),
        Instr::MakeStruct { args_start, n, .. } => is_among(r, args_start, n as u32),
        Instr::MakeSet { args_start, n, .. } => is_among(r, args_start, n as u32),
        Instr::MakeTuple { args_start, n, .. } => is_among(r, args_start, n as u32),
        Instr::MakeEnum { args_start, n, .. } => is_among(r, args_start, n as u32),
        Instr::MakeDict { args_start, n_pairs, .. } => is_among(r, args_start, n_pairs as u32 * 2),
        Instr::FieldGet { src, .. } => src == r,
        Instr::TupleGet { src, .. } => src == r,
        Instr::EnumTag { src, .. } => src == r,
        Instr::EnumPayload { src, .. } => src == r,
        Instr::KvPut { src, .. } => src == r,
        Instr::KvPutPath { src, .. } => src == r,
        Instr::Convert { src, .. } => src == r,
        Instr::BuiltinResource { src, .. } => src == r,
        Instr::BuiltinUnwrap { src, .. } => src == r,
        Instr::BuiltinAddress { src, .. } => src == r,
        Instr::BuiltinLen { src, .. } => src == r,
        Instr::PVecPush { src, .. } => src == r,
        Instr::FieldSet { dst, val, .. } => dst == r || val == r,
        Instr::MapGet { key_reg, .. } => key_reg == r,
        Instr::PMapGet { key_reg, .. } => key_reg == r,
        Instr::PMapContains { key_reg, .. } => key_reg == r,
        Instr::PBTreeGet { key_reg, .. } => key_reg == r,
        Instr::PBTreeContains { key_reg, .. } => key_reg == r,
        Instr::PMapDelete { key_reg, .. } => key_reg == r,
        Instr::PBTreeDelete { key_reg, .. } => key_reg == r,
        Instr::MapPut { key_reg, src, .. } => key_reg == r || src == r,
        Instr::PMapPut { key_reg, src, .. } => key_reg == r || src == r,
        Instr::PMapPutUnique { key_reg, src, .. } => key_reg == r || src == r,
        Instr::PBTreePut { key_reg, src, .. } => key_reg == r || src == r,
        Instr::PBTreePutUnique { key_reg, src, .. } => key_reg == r || src == r,
        Instr::PVecGet { idx_reg, .. } => idx_reg == r,
        Instr::PVecSet { idx_reg, src, .. } => idx_reg == r || src == r,
        Instr::PMapAppendUnique { key_reg, elem_reg, .. } => key_reg == r || elem_reg == r,
        Instr::PBTreeAppendUnique { key_reg, elem_reg, .. } => key_reg == r || elem_reg == r,
        Instr::PMapRemoveFromList { key_reg, elem_reg, .. } => key_reg == r || elem_reg == r,
        Instr::PBTreeRemoveFromList { key_reg, elem_reg, .. } => key_reg == r || elem_reg == r,
        Instr::PMapRemoveUnique { key_reg, expected_reg, .. } => key_reg == r || expected_reg == r,
        Instr::PBTreeRemoveUnique { key_reg, expected_reg, .. } => key_reg == r || expected_reg == r,
        Instr::PMapWalkNext { cursor_reg, .. } => cursor_reg == r,
        Instr::PBTreeWalkNext { cursor_reg, .. } => cursor_reg == r,
        Instr::PBTreeRange { lo_reg, hi_reg, .. } => lo_reg == r || hi_reg == r,
        Instr::PrefetchMap { arr_reg, .. } => arr_reg == r,
        Instr::Emit { value } => value == r,
        Instr::IncReg { reg } => reg == r,
        Instr::LoadConst { .. }
        | Instr::Jump { .. }
        | Instr::ReturnUnit
        | Instr::KvGet { .. }
        | Instr::KvGetPath { .. }
        | Instr::ReadBatch { .. }
        | Instr::Context { .. }
        | Instr::PVecLen { .. }
        | Instr::PMapEntries { .. }
        | Instr::PMapKeys { .. }
        | Instr::PMapValues { .. }
        | Instr::PVecToArray { .. }
        | Instr::PMapWalkInit { .. }
        | Instr::PBTreeWalkInit { .. } => false,
    }
}

/// Whether an instruction changes what a register holds. A batch of reads is not
/// among these: what it fills stands in its read group.
pub open spec fn writes(i: Instr, r: u16) -> bool {
    match i {
        Instr::LoadConst { dst, .. } => dst == r,
        Instr::Move { dst, .. } => dst == r,
        Instr::Bin { dst, .. } => dst == r,
        Instr::Un { dst, .. } => dst == r,
        Instr::Call { dst, .. } => dst == r,
        Instr::CallHost { dst, .. } => dst == r,
        Instr::CallExternal { dst, .. } => dst == r,
        Instr::MakeInterface { dst, .. } => dst == r,
        Instr::CallExternalDyn { dst, .. } => dst == r,
        Instr::BuiltinResource { dst, .. } => dst == r,
        Instr::BuiltinUnwrap { dst, .. } => dst == r,
        Instr::BuiltinAddress { dst, .. } => dst == r,
        Instr::BuiltinLen { dst, .. } => dst == r,
        Instr::Convert { dst, .. } => dst == r,
        Instr::MakeArray { dst, .. } => dst == r,
        Instr::ArrayGet { dst, .. } => dst == r,
        Instr::ArrayAppend { dst, .. } => dst == r,
        Instr::MakeSet { dst, .. } => dst == r,
        Instr::MakeDict { dst, .. } => dst == r,
        Instr::BuiltinCall { dst, .. } => dst == r,
        Instr::MakeStruct { dst, .. } => dst == r,
        Instr::FieldGet { dst, .. } => dst == r,
        Instr::FieldSet { dst, .. } => dst == r,
        Instr::KvGet { dst, .. } => dst == r,
        Instr::KvGetPath { dst, .. } => dst == r,
        Instr::Context { dst, .. } => dst == r,
        Instr::MakeTuple { dst, .. } => dst == r,
        Instr::TupleGet { dst, .. } => dst == r,
        Instr::MakeEnum { dst, .. } => dst == r,
        Instr::EnumTag { dst, .. } => dst == r,
        Instr::EnumPayload { dst, .. } => dst == r,
        Instr::MapGet { dst, .. } => dst == r,
        Instr::PMapGet { dst, .. } => dst == r,
        Instr::PMapContains { dst, .. } => dst == r,
        Instr::PVecGet { dst, .. } => dst == r,
        Instr::PVecPush { dst, .. } => dst == r,
        Instr::PVecLen { dst, .. } => dst == r,
        Instr::PMapEntries { dst, .. } => dst == r,
        Instr::PMapKeys { dst, .. } => dst == r,
        Instr::PMapValues { dst, .. } => dst == r,
        Instr::PVecToArray { dst, .. } => dst == r,
        Instr::PMapWalkInit { dst, .. } => dst == r,
        Instr::PMapWalkNext { cursor_reg, value_reg, .. } => cursor_reg == r || value_reg == r,
        Instr::PBTreeGet { dst, .. } => dst == r,
        Instr::PBTreeContains { dst, .. } => dst == r,
        Instr::PBTreeRange { dst, .. } => dst == r,
        Instr::PBTreeWalkInit { dst, .. } => dst == r,
        Instr::PBTreeWalkNext { cursor_reg, value_reg, .. } => cursor_reg == r || value_reg == r,
        Instr::IncReg { reg } => reg == r,
        Instr::Jump { .. }
        | Instr::JumpIfFalse { .. }
        | Instr::Return { .. }
        | Instr::ReturnUnit
        | Instr::KvPut { .. }
        | Instr::KvPutPath { .. }
        | Instr::ReadBatch { .. }
        | Instr::PrefetchMap { .. }
        | Instr::Emit { .. }
        | Instr::MapPut { .. }
        | Instr::PMapPut { .. }
        | Instr::PVecSet { .. }
        | Instr::PMapAppendUnique { .. }
        | Instr::PMapPutUnique { .. }
        | Instr::PBTreePut { .. }
        | Instr::PBTreePutUnique { .. }
        | Instr::PBTreeAppendUnique { .. }
        | Instr::PMapDelete { .. }
        | Instr::PBTreeDelete { .. }
        | Instr::PMapRemoveUnique { .. }
        | Instr::PMapRemoveFromList { .. }
        | Instr::PBTreeRemoveUnique { .. }
        | Instr::PBTreeRemoveFromList { .. } => false,
    }
}

#[verifier::rlimit(30)]
fn writes_reg(i: &Instr, r: u16) -> (b: bool)
    ensures
        b == writes(*i, r),
{
    match *i {
        Instr::LoadConst { dst, .. } => dst == r,
        Instr::Move { dst, .. } => dst == r,
        Instr::Bin { dst, .. } => dst == r,
        Instr::Un { dst, .. } => dst == r,
        Instr::Call { dst, .. } => dst == r,
        Instr::CallHost { dst, .. } => dst == r,
        Instr::CallExternal { dst, .. } => dst == r,
        Instr::MakeInterface { dst, .. } => dst == r,
        Instr::CallExternalDyn { dst, .. } => dst == r,
        Instr::BuiltinResource { dst, .. } => dst == r,
        Instr::BuiltinUnwrap { dst, .. } => dst == r,
        Instr::BuiltinAddress { dst, .. } => dst == r,
        Instr::BuiltinLen { dst, .. } => dst == r,
        Instr::Convert { dst, .. } => dst == r,
        Instr::MakeArray { dst, .. } => dst == r,
        Instr::ArrayGet { dst, .. } => dst == r,
        Instr::ArrayAppend { dst, .. } => dst == r,
        Instr::MakeSet { dst, .. } => dst == r,
        Instr::MakeDict { dst, .. } => dst == r,
        Instr::BuiltinCall { dst, .. } => dst == r,
        Instr::MakeStruct { dst, .. } => dst == r,
        Instr::FieldGet { dst, .. } => dst == r,
        Instr::FieldSet { dst, .. } => dst == r,
        Instr::KvGet { dst, .. } => dst == r,
        Instr::KvGetPath { dst, .. } => dst == r,
        Instr::Context { dst, .. } => dst == r,
        Instr::MakeTuple { dst, .. } => dst == r,
        Instr::TupleGet { dst, .. } => dst == r,
        Instr::MakeEnum { dst, .. } => dst == r,
        Instr::EnumTag { dst, .. } => dst == r,
        Instr::EnumPayload { dst, .. } => dst == r,
        Instr::MapGet { dst, .. } => dst == r,
        Instr::PMapGet { dst, .. } => dst == r,
        Instr::PMapContains { dst, .. } => dst == r,
        Instr::PVecGet { dst, .. } => dst == r,
        Instr::PVecPush { dst, .. } => dst == r,
        Instr::PVecLen { dst, .. } => dst == r,
        Instr::PMapEntries { dst, .. } => dst == r,
        Instr::PMapKeys { dst, .. } => dst == r,
        Instr::PMapValues { dst, .. } => dst == r,
        Instr::PVecToArray { dst, .. } => dst == r,
        Instr::PMapWalkInit { dst, .. } => dst == r,
        Instr::PMapWalkNext { cursor_reg, value_reg, .. } => cursor_reg == r || value_reg == r,
        Instr::PBTreeGet { dst, .. } => dst == r,
        Instr::PBTreeContains { dst, .. } => dst == r,
        Instr::PBTreeRange { dst, .. } => dst == r,
        Instr::PBTreeWalkInit { dst, .. } => dst == r,
        Instr::PBTreeWalkNext { cursor_reg, value_reg, .. } => cursor_reg == r || value_reg == r,
        Instr::IncReg { reg } => reg == r,
        Instr::Jump { .. }
        | Instr::JumpIfFalse { .. }
        | Instr::Return { .. }
        | Instr::ReturnUnit
        | Instr::KvPut { .. }
        | Instr::KvPutPath { .. }
        | Instr::ReadBatch { .. }
        | Instr::PrefetchMap { .. }
        | Instr::Emit { .. }
        | Instr::MapPut { .. }
        | Instr::PMapPut { .. }
        | Instr::PVecSet { .. }
        | Instr::PMapAppendUnique { .. }
        | Instr::PMapPutUnique { .. }
        | Instr::PBTreePut { .. }
        | Instr::PBTreePutUnique { .. }
        | Instr::PBTreeAppendUnique { .. }
        | Instr::PMapDelete { .. }
        | Instr::PBTreeDelete { .. }
        | Instr::PMapRemoveUnique { .. }
        | Instr::PMapRemoveFromList { .. }
        | Instr::PBTreeRemoveUnique { .. }
        | Instr::PBTreeRemoveFromList { .. } => false,
    }
}

/// Whether an instruction has to do with a register.
pub open spec fn touches(i: Instr, r: u16) -> bool {
    uses(i, r) || writes(i, r)
}

/// Whether an instruction ends a cluster whatever registers it uses. `silent`
/// tells of each function of the module whether a call of it neither writes nor
/// calls out.
pub open spec fn breaks(i: Instr, silent: Seq<bool>) -> bool {
    match i {
        Instr::KvPut { .. }
        | Instr::KvPutPath { .. }
        | Instr::MapPut { .. }
        | Instr::PMapPut { .. }
        | Instr::PVecSet { .. }
        | Instr::PVecPush { .. }
        | Instr::PMapAppendUnique { .. }
        | Instr::PMapPutUnique { .. }
        | Instr::PBTreePut { .. }
        | Instr::PBTreePutUnique { .. }
        | Instr::PBTreeAppendUnique { .. }
        | Instr::PMapDelete { .. }
        | Instr::PBTreeDelete { .. }
        | Instr::PMapRemoveUnique { .. }
        | Instr::PMapRemoveFromList { .. }
        | Instr::PBTreeRemoveUnique { .. }
        | Instr::PBTreeRemoveFromList { .. }
        | Instr::CallHost { .. }
        | Instr::Jump { .. }
        | Instr::JumpIfFalse { .. }
        | Instr::PMapWalkNext { .. }
        | Instr::PBTreeWalkNext { .. }
        | Instr::ReadBatch { .. }
        | Instr::Return { .. }
        | Instr::ReturnUnit => true,
        Instr::CallExternal { is_view, is_pure, .. } => !(is_view || is_pure),
        Instr::CallExternalDyn { is_view, is_pure, .. } => !(is_view || is_pure),
        Instr::Call { fn_idx, .. } => !(fn_idx < silent.len() && silent[fn_idx as int]),
        Instr::MapGet { .. }
        | Instr::PMapGet { .. }
        | Instr::PMapContains { .. }
        | Instr::PVecGet { .. }
        | Instr::PVecLen { .. }
        | Instr::PMapEntries { .. }
        | Instr::PMapKeys { .. }
        | Instr::PMapValues { .. }
        | Instr::PVecToArray { .. }
        | Instr::PMapWalkInit { .. }
        | Instr::PBTreeGet { .. }
        | Instr::PBTreeContains { .. }
        | Instr::PBTreeRange { .. }
        | Instr::PBTreeWalkInit { .. }
        | Instr::MakeInterface { .. }
        | Instr::LoadConst { .. }
        | Instr::Move { .. }
        | Instr::Bin { .. }
        | Instr::Un { .. }
        | Instr::Convert { .. }
        | Instr::ArrayGet { .. }
        | Instr::ArrayAppend { .. }
        | Instr::MakeArray { .. }
        | Instr::MakeStruct { .. }
        | Instr::FieldGet { .. }
        | Instr::FieldSet { .. }
        | Instr::MakeSet { .. }
        | Instr::MakeDict { .. }
        | Instr::BuiltinCall { .. }
        | Instr::BuiltinResource { .. }
        | Instr::BuiltinUnwrap { .. }
        | Instr::BuiltinAddress { .. }
        | Instr::BuiltinLen { .. }
        | Instr::KvGet { .. }
        | Instr::KvGetPath { .. }
        | Instr::PrefetchMap { .. }
        | Instr::Emit { .. }
        | Instr::Context { .. }
        | Instr::MakeTuple { .. }
        | Instr::TupleGet { .. }
        | Instr::MakeEnum { .. }
        | Instr::EnumTag { .. }
        | Instr::EnumPayload { .. }
        | Instr::IncReg { .. } => false,
    }
}

#[verifier::rlimit(30)]
fn cluster_breaker(i: &Instr, silent: &Vec<bool>) -> (b: bool)
    ensures
        b == breaks(*i, silent@),
{
    match *i {
        Instr::KvPut { .. }
        | Instr::KvPutPath { .. }
        | Instr::MapPut { .. }
        | Instr::PMapPut { .. }
        | Instr::PVecSet { .. }
        | Instr::PVecPush { .. }
        | Instr::PMapAppendUnique { .. }
        | Instr::PMapPutUnique { .. }
        | Instr::PBTreePut { .. }
        | Instr::PBTreePutUnique { .. }
        | Instr::PBTreeAppendUnique { .. }
        | Instr::PMapDelete { .. }
        | Instr::PBTreeDelete { .. }
        | Instr::PMapRemoveUnique { .. }
        | Instr::PMapRemoveFromList { .. }
        | Instr::PBTreeRemoveUnique { .. }
        | Instr::PBTreeRemoveFromList { .. }
        | Instr::CallHost { .. }
        | Instr::Jump { .. }
        | Instr::JumpIfFalse { .. }
        | Instr::PMapWalkNext { .. }
        | Instr::PBTreeWalkNext { .. }
        | Instr::ReadBatch { .. }
        | Instr::Return { .. }
        | Instr::ReturnUnit => true,
        Instr::CallExternal { is_view, is_pure, .. } => !(is_view || is_pure),
        Instr::CallExternalDyn { is_view, is_pure, .. } => !(is_view || is_pure),
        Instr::Call { fn_idx, .. } => !((fn_idx as usize) < silent.len() && silent[fn_idx as usize]),
        Instr::MapGet { .. }
        | Instr::PMapGet { .. }
        | Instr::PMapContains { .. }
        | Instr::PVecGet { .. }
        | Instr::PVecLen { .. }
        | Instr::PMapEntries { .. }
        | Instr::PMapKeys { .. }
        | Instr::PMapValues { .. }
        | Instr::PVecToArray { .. }
        | Instr::PMapWalkInit { .. }
        | Instr::PBTreeGet { .. }
        | Instr::PBTreeContains { .. }
        | Instr::PBTreeRange { .. }
        | Instr::PBTreeWalkInit { .. }
        | Instr::MakeInterface { .. }
        | Instr::LoadConst { .. }
        | Instr::Move { .. }
        | Instr::Bin { .. }
        | Instr::Un { .. }
        | Instr::Convert { .. }
        | Instr::ArrayGet { .. }
        | Instr::ArrayAppend { .. }
        | Instr::MakeArray { .. }
        | Instr::MakeStruct { .. }
        | Instr::FieldGet { .. }
        | Instr::FieldSet { .. }
        | Instr::MakeSet { .. }
        | Instr::MakeDict { .. }
        | Instr::BuiltinCall { .. }
        | Instr::BuiltinResource { .. }
        | Instr::BuiltinUnwrap { .. }
        | Instr::BuiltinAddress { .. }
        | Instr::BuiltinLen { .. }
        | Instr::KvGet { .. }
        | Instr::KvGetPath { .. }
        | Instr::PrefetchMap { .. }
        | Instr::Emit { .. }
        | Instr::Context { .. }
        | Instr::MakeTuple { .. }
        | Instr::TupleGet { .. }
        | Instr::MakeEnum { .. }
        | Instr::EnumTag { .. }
        | Instr::EnumPayload { .. }
        | Instr::IncReg { .. } => false,
    }
}

/// The reads that can join a cluster.
pub open spec fn is_read(i: Instr) -> bool {
    i is KvGet || i is KvGetPath
}

/// The register that a read fills.
pub open spec fn read_dst(i: Instr) -> u16 {
    match i {
        Instr::KvGet { dst, key_idx } => dst,
        Instr::KvGetPath { dst, path_idx } => dst,
        _ => 0,
    }
}

/// A read as a member of a batch.
pub open spec fn read_op(i: Instr) -> ReadOp {
    match i {
        Instr::KvGet { dst, key_idx } => ReadOp::State { dst, key_idx },
        Instr::KvGetPath { dst, path_idx } => ReadOp::Path { dst, path_idx },
        _ => ReadOp::State { dst: 0, key_idx: 0 },
    }
}

fn as_read(i: &Instr) -> (r: Option<ReadOp>)
    ensures
        match r {
            Some(op) => is_read(*i) && op == read_op(*i),
            None => !is_read(*i),
        },
{
    match *i {
        Instr::KvGet { dst, key_idx } => Some(ReadOp::State { dst, key_idx }),
        Instr::KvGetPath { dst, path_idx } => Some(ReadOp::Path { dst, path_idx }),
        _ => None,
    }
}

/// The distance that an instruction may jump by.
pub open spec fn leap_of(i: Instr) -> Option<i32> {
    match i {
        Instr::Jump { offset } => Some(offset),
        Instr::JumpIfFalse { offset, .. } => Some(offset),
        Instr::PMapWalkNext { end_offset, .. } => Some(end_offset),
        Instr::PBTreeWalkNext { end_offset, .. } => Some(end_offset),
        _ => None,
    }
}

fn leap(i: &Instr) -> (r: Option<i32>)
    ensures
        r == leap_of(*i),
{
    match *i {
        Instr::Jump { offset } => Some(offset),
        Instr::JumpIfFalse { offset, .. } => Some(offset),
        Instr::PMapWalkNext { end_offset, .. } => Some(end_offset),
        Instr::PBTreeWalkNext { end_offset, .. } => Some(end_offset),
        _ => None,
    }
}

/// An instruction that jumps, with another distance.
pub open spec fn retargeted(i: Instr, offset: i32) -> Instr {
    match i {
        Instr::Jump { .. } => Instr::Jump { offset },
        Instr::JumpIfFalse { cond, .. } => Instr::JumpIfFalse { cond, offset },
        Instr::PMapWalkNext { cursor_reg, value_reg, .. } => Instr::PMapWalkNext {
            cursor_reg,
            value_reg,
            end_offset: offset,
        },
        Instr::PBTreeWalkNext { cursor_reg, value_reg, .. } => Instr::PBTreeWalkNext {
            cursor_reg,
            value_reg,
            end_offset: offset,
        },
        _ => i,
    }
}

fn retarget(i: &Instr, offset: i32) -> (r: Instr)
    ensures
        r == retargeted(*i, offset),
{
    match *i {
        Instr::Jump { .. } => Instr::Jump { offset },
        Instr::JumpIfFalse { cond, .. } => Instr::JumpIfFalse { cond, offset },
        Instr::PMapWalkNext { cursor_reg, value_reg, .. } => Instr::PMapWalkNext {
            cursor_reg,
            value_reg,
            end_offset: offset,
        },
        Instr::PBTreeWalkNext { cursor_reg, value_reg, .. } => Instr::PBTreeWalkNext {
            cursor_reg,
            value_reg,
            end_offset: offset,
        },
        _ => *i,
    }
}

/// Whether the `k`-th instruction can jump to the `j`-th place.
pub open spec fn lands_at(code: Seq<Instr>, k: int, j: int) -> bool {
    match leap_of(code[k]) {
        Some(offset) => k + 1 + offset == j,
        None => false,
    }
}

/// Whether a jump lands on a place.
pub open spec fn is_target(code: Seq<Instr>, j: int) -> bool {
    exists|k: int| 0 <= k < code.len() && #[trigger] lands_at(code, k, j)
}

/// Tells of each place whether a jump lands on it.
#[verifier::loop_isolation(false)]
fn targets(code: &Vec<Instr>) -> (marks: Vec<bool>)
    ensures
        marks@.len() == code@.len(),
        forall|j: int| 0 <= j < code@.len() ==> #[trigger] marks@[j] == is_target(code@, j),
{
    let n: usize = code.len();
    let mut marks: Vec<bool> = Vec::new();
    while marks.len() < n
        invariant
            marks@.len() <= n,
            forall|j: int| 0 <= j < marks@.len() ==> !#[trigger] marks@[j],
        decreases n - marks@.len(),
    {
        marks.push(false);
    }
    let mut k: usize = 0;
    while k < n
        invariant
            k <= n,
            marks@.len() == n,
            forall|j: int|
                0 <= j < n ==> (#[trigger] marks@[j] <==> exists|q: int|
                    0 <= q < k && #[trigger] lands_at(code@, q, j)),
        decreases n - k,
    {
        let ghost before = marks@;
        match leap(&code[k]) {
            Some(offset) => {
                let target: i128 = k as i128 + 1 + offset as i128;
                if target >= 0 && target < n as i128 {
                    marks.set(target as usize, true);
                    assert(lands_at(code@, k as int, target as int));
                }
            },
            None => {},
        }
        assert forall|j: int| 0 <= j < n implies (#[trigger] marks@[j] <==> exists|q: int|
            0 <= q < k + 1 && #[trigger] lands_at(code@, q, j)) by {
            if before[j] {
                let q = choose|q: int| 0 <= q < k && #[trigger] lands_at(code@, q, j);
                assert(lands_at(code@, q, j));
            }
        }
        k = k + 1;
    }
    marks
}

/// Whether the `j`-th instruction has to do with a register that a read from the
/// `i`-th on is to fill.
pub open spec fn touches_pending(code: Seq<Instr>, i: int, j: int) -> bool {
    exists|k: int| i <= k < j && is_read(#[trigger] code[k]) && touches(code[j], read_dst(code[k]))
}

/// Whether a cluster that started at the `i`-th instruction ends before the `j`-th.
pub open spec fn ends(code: Seq<Instr>, silent: Seq<bool>, i: int, j: int) -> bool {
    breaks(code[j], silent) || is_target(code, j) || touches_pending(code, i, j)
}

/// How far a cluster that started at `i` and has reached `j` can run.
pub open spec fn cluster_end(code: Seq<Instr>, silent: Seq<bool>, i: int, j: int) -> int
    decreases code.len() - j,
{
    if j >= code.len() {
        code.len() as int
    } else if ends(code, silent, i, j) {
        j
    } else {
        cluster_end(code, silent, i, j + 1)
    }
}

/// A cluster ends at the first place that ends it, or with the code.
pub proof fn lemma_cluster_end(code: Seq<Instr>, silent: Seq<bool>, i: int, j: int)
    requires
        0 <= j <= code.len(),
    ensures
        j <= cluster_end(code, silent, i, j) <= code.len(),
        forall|k: int| j <= k < cluster_end(code, silent, i, j) ==> !#[trigger] ends(code, silent, i, k),
        cluster_end(code, silent, i, j) < code.len() ==> ends(
            code,
            silent,
            i,
            cluster_end(code, silent, i, j),
        ),
    decreases code.len() - j,
{
    if j < code.len() && !ends(code, silent, i, j) {
        lemma_cluster_end(code, silent, i, j + 1);
    }
}

/// The last read from `i` on before `j`; the `i`-th instruction is one.
pub open spec fn last_read(code: Seq<Instr>, i: int, j: int) -> int
    decreases j - i,
{
    if j <= i + 1 {
        i
    } else if is_read(code[j - 1]) {
        j - 1
    } else {
        last_read(code, i, j - 1)
    }
}

/// What [`last_read`] gives is a read, and none comes after it.
pub proof fn lemma_last_read(code: Seq<Instr>, i: int, j: int)
    requires
        i < j,
        is_read(code[i]),
    ensures
        i <= last_read(code, i, j) < j,
        is_read(code[last_read(code, i, j)]),
        forall|k: int| last_read(code, i, j) < k < j ==> !is_read(#[trigger] code[k]),
    decreases j - i,
{
    if j > i + 1 && !is_read(code[j - 1]) {
        lemma_last_read(code, i, j - 1);
    }
}

/// The place of the last read of the cluster that starts at `i`.
pub open spec fn cluster_last(code: Seq<Instr>, silent: Seq<bool>, i: int) -> int {
    last_read(code, i, cluster_end(code, silent, i, i + 1))
}

/// What holds of the cluster that starts at `i`.
pub proof fn lemma_cluster(code: Seq<Instr>, silent: Seq<bool>, i: int)
    requires
        0 <= i < code.len(),
        is_read(code[i]),
    ensures
        i <= cluster_last(code, silent, i) < cluster_end(code, silent, i, i + 1) <= code.len(),
        is_read(code[cluster_last(code, silent, i)]),
        forall|k: int|
            i < k <= cluster_last(code, silent, i) ==> !#[trigger] ends(code, silent, i, k),
{
    lemma_cluster_end(code, silent, i, i + 1);
    lemma_last_read(code, i, cluster_end(code, silent, i, i + 1));
}

/// What stands at one place of the optimized code: an instruction of the old
/// code, or a batch of reads of it.
pub enum Slot {
    One(int),
    Batch(Seq<int>),
}

pub open spec fn holds(s: Slot, o: int) -> bool {
    match s {
        Slot::One(k) => k == o,
        Slot::Batch(ks) => ks.contains(o),
    }
}

/// The last old place that a slot holds.
pub open spec fn reach(s: Slot) -> int {
    match s {
        Slot::One(k) => k,
        Slot::Batch(ks) => ks.last(),
    }
}

/// The reads between two places, in order.
pub open spec fn reads_in(code: Seq<Instr>, i: int, j: int) -> Seq<int>
    decreases j - i,
{
    if j <= i {
        seq![]
    } else if is_read(code[j - 1]) {
        reads_in(code, i, j - 1).push(j - 1)
    } else {
        reads_in(code, i, j - 1)
    }
}

/// The other instructions between two places, in order.
pub open spec fn others_in(code: Seq<Instr>, i: int, j: int) -> Seq<Slot>
    decreases j - i,
{
    if j <= i {
        seq![]
    } else if is_read(code[j - 1]) {
        others_in(code, i, j - 1)
    } else {
        others_in(code, i, j - 1).push(Slot::One(j - 1))
    }
}

/// The slot of a cluster's reads: a lone read stays as it is.
pub open spec fn reads_slot(rs: Seq<int>) -> Slot {
    if rs.len() == 1 {
        Slot::One(rs[0])
    } else {
        Slot::Batch(rs)
    }
}

/// The slots of the code from the `i`-th instruction on, outside any cluster.
pub open spec fn slots_from(code: Seq<Instr>, silent: Seq<bool>, i: int) -> Seq<Slot>
    decreases code.len() - i,
{
    if i < 0 || i >= code.len() {
        seq![]
    } else if is_read(code[i]) {
        let last = cluster_last(code, silent, i);
        proof {
            lemma_cluster(code, silent, i);
        }
        others_in(code, i, last) + seq![reads_slot(reads_in(code, i, last + 1))] + slots_from(
            code,
            silent,
            last + 1,
        )
    } else {
        seq![Slot::One(i)] + slots_from(code, silent, i + 1)
    }
}

/// The slots of the optimized code.
pub open spec fn slots(code: Seq<Instr>, silent: Seq<bool>) -> Seq<Slot> {
    slots_from(code, silent, 0)
}

/// The first slot from `p` on that reaches an old place, or the end.
pub open spec fn landing_from(s: Seq<Slot>, target: int, p: int) -> int
    decreases s.len() - p,
{
    if p >= s.len() {
        s.len() as int
    } else if reach(s[p]) >= target {
        p
    } else {
        landing_from(s, target, p + 1)
    }
}

/// Where a jump to an old place lands: where what stood there, or what stood
/// next after it, begins.
pub open spec fn landing(s: Seq<Slot>, target: int) -> int {
    landing_from(s, target, 0)
}

/// The offset of a jump that stands at `p` and stood at `o`.
pub open spec fn new_offset(s: Seq<Slot>, p: int, o: int, offset: i32) -> i32 {
    (landing(s, o + 1 + offset) - p - 1) as i32
}

/// An old instruction at its new place.
pub open spec fn moved(s: Seq<Slot>, p: int, o: int, i: Instr) -> Instr {
    match leap_of(i) {
        Some(offset) => retargeted(i, new_offset(s, p, o, offset)),
        None => i,
    }
}

/// The number of batches before a place.
pub open spec fn batches(s: Seq<Slot>, p: int) -> nat
    decreases p,
{
    if p <= 0 {
        0
    } else if s[p - 1] is Batch {
        batches(s, p - 1) + 1
    } else {
        batches(s, p - 1)
    }
}

/// The instruction at a place of the optimized code; `groups` read groups were
/// there before.
pub open spec fn instr_at(code: Seq<Instr>, s: Seq<Slot>, groups: nat, p: int) -> Instr {
    match s[p] {
        Slot::One(o) => moved(s, p, o, code[o]),
        Slot::Batch(ks) => Instr::ReadBatch { group_idx: ((groups + batches(s, p)) % 65536) as u16 },
    }
}

/// The optimized code.
pub open spec fn optimized_code(code: Seq<Instr>, silent: Seq<bool>, groups: nat) -> Seq<Instr> {
    let s = slots(code, silent);
    Seq::new(s.len(), |p: int| instr_at(code, s, groups, p))
}

/// The reads of a batch.
pub open spec fn group_of(code: Seq<Instr>, ks: Seq<int>) -> Seq<ReadOp> {
    Seq::new(ks.len(), |i: int| read_op(code[ks[i]]))
}

/// The read groups of the batches before a place.
pub open spec fn groups_until(code: Seq<Instr>, s: Seq<Slot>, p: int) -> Seq<Seq<ReadOp>>
    decreases p,
{
    if p <= 0 {
        seq![]
    } else {
        match s[p - 1] {
            Slot::Batch(ks) => groups_until(code, s, p - 1).push(group_of(code, ks)),
            Slot::One(_) => groups_until(code, s, p - 1),
        }
    }
}

/// The read groups that the optimization adds.
pub open spec fn added_groups(code: Seq<Instr>, silent: Seq<bool>) -> Seq<Seq<ReadOp>> {
    let s = slots(code, silent);
    groups_until(code, s, s.len() as int)
}

/// The reads of each group.
pub open spec fn groups_view(g: Seq<Vec<ReadOp>>) -> Seq<Seq<ReadOp>> {
    Seq::new(g.len(), |i: int| g[i]@)
}

/// Whether `g` is `f` with its reads clustered.
pub open spec fn optimized_fn(f: BcFn, g: BcFn, silent: Seq<bool>) -> bool {
    &&& g.code@ == optimized_code(f.code@, silent, f.read_groups@.len())
    &&& groups_view(g.read_groups@) == groups_view(f.read_groups@) + added_groups(f.code@, silent)
    &&& g == (BcFn { code: g.code, read_groups: g.read_groups, ..f })
}

/// Whether a call of the `k`-th function neither writes nor calls out. A function
/// hidden by a later one of its name counts as unknown.
pub open spec fn silent_call(fns: Seq<BcFn>, effects: EffectTable, k: int) -> bool {
    place(fns, fns[k].name@) == Some(k) && match effects.class(fns[k].name@) {
        Some(EffectClass::Pure) | Some(EffectClass::ReadOnly) => true,
        _ => false,
    }
}

pub open spec fn silent_calls(fns: Seq<BcFn>, effects: EffectTable) -> Seq<bool> {
    Seq::new(fns.len(), |k: int| silent_call(fns, effects, k))
}

/// Whether every function of `m` can have its jumps retargeted.
pub open spec fn addressable(m: BcModule) -> bool {
    forall|k: int| 0 <= k < m.functions@.len() ==> (#[trigger] m.functions@[k]).code@.len() <= i32::MAX
}

enum Placed {
    One(usize),
    Batch(Vec<usize>),
}

spec fn placed_view(p: Placed) -> Slot {
    match p {
        Placed::One(o) => Slot::One(o as int),
        Placed::Batch(v) => Slot::Batch(ints(v@)),
    }
}

spec fn ints(v: Seq<usize>) -> Seq<int> {
    Seq::new(v.len(), |i: int| v[i] as int)
}

spec fn placed(v: Seq<Placed>) -> Seq<Slot> {
    Seq::new(v.len(), |i: int| placed_view(v[i]))
}

/// Whether a slot holds something, and only places below `n`.
spec fn in_range(s: Slot, n: int) -> bool {
    match s {
        Slot::One(o) => 0 <= o < n,
        Slot::Batch(ks) => ks.len() > 0 && all_below(ks, n),
    }
}

spec fn all_below(ks: Seq<int>, n: int) -> bool {
    forall|i: int| 0 <= i < ks.len() ==> 0 <= #[trigger] ks[i] < n
}

/// Whether an instruction has to do with one of the registers.
fn touches_any(i: &Instr, dsts: &Vec<u16>) -> (b: bool)
    ensures
        b == exists|w: int| 0 <= w < dsts@.len() && touches(*i, #[trigger] dsts@[w]),
{
    let mut d: usize = 0;
    while d < dsts.len()
        invariant
            d <= dsts@.len(),
            forall|w: int| 0 <= w < d ==> !touches(*i, #[trigger] dsts@[w]),
        decreases dsts@.len() - d,
    {
        if uses_reg(i, dsts[d]) || writes_reg(i, dsts[d]) {
            assert(touches(*i, dsts@[d as int]));
            return true;
        }
        d = d + 1;
    }
    false
}

/// Whether a read between two places fills a register.
spec fn some_read_fills(code: Seq<Instr>, i: int, j: int, r: u16) -> bool {
    exists|k: int| i <= k < j && is_read(#[trigger] code[k]) && read_dst(code[k]) == r
}

/// Whether the registers are those that the reads between two places fill.
spec fn fills(code: Seq<Instr>, i: int, j: int, dsts: Seq<u16>) -> bool {
    &&& forall|k: int| i <= k < j && is_read(#[trigger] code[k]) ==> dsts.contains(read_dst(code[k]))
    &&& forall|d: int| 0 <= d < dsts.len() ==> some_read_fills(code, i, j, #[trigger] dsts[d])
}

proof fn lemma_fills_push(code: Seq<Instr>, i: int, j: int, dsts: Seq<u16>)
    requires
        fills(code, i, j, dsts),
        i <= j < code.len(),
    ensures
        is_read(code[j]) ==> fills(code, i, j + 1, dsts.push(read_dst(code[j]))),
        !is_read(code[j]) ==> fills(code, i, j + 1, dsts),
{
    let more = dsts.push(read_dst(code[j]));
    if is_read(code[j]) {
        assert forall|k: int| i <= k < j + 1 && is_read(#[trigger] code[k]) implies more.contains(
            read_dst(code[k]),
        ) by {
            if k < j {
                assert(dsts.contains(read_dst(code[k])));
                let w = choose|w: int| 0 <= w < dsts.len() && dsts[w] == read_dst(code[k]);
                assert(more[w] == read_dst(code[k]));
            } else {
                assert(more[dsts.len() as int] == read_dst(code[k]));
            }
        }
        assert forall|d: int| 0 <= d < more.len() implies some_read_fills(code, i, j + 1, #[trigger] more[d]) by {
            if d < dsts.len() {
                assert(some_read_fills(code, i, j, dsts[d]));
                let k = choose|k: int|
                    i <= k < j && is_read(#[trigger] code[k]) && read_dst(code[k]) == dsts[d];
                assert(is_read(code[k]));
            } else {
                assert(is_read(code[j]));
            }
        }
    } else {
        assert forall|k: int| i <= k < j + 1 && is_read(#[trigger] code[k]) implies dsts.contains(
            read_dst(code[k]),
        ) by {
            assert(k < j);
        }
        assert forall|d: int| 0 <= d < dsts.len() implies some_read_fills(code, i, j + 1, #[trigger] dsts[d]) by {
            assert(some_read_fills(code, i, j, dsts[d]));
            let k = choose|k: int|
                i <= k < j && is_read(#[trigger] code[k]) && read_dst(code[k]) == dsts[d];
            assert(is_read(code[k]));
        }
    }
}

proof fn lemma_fills_touch(code: Seq<Instr>, i: int, j: int, dsts: Seq<u16>)
    requires
        fills(code, i, j, dsts),
    ensures
        touches_pending(code, i, j) == exists|w: int|
            0 <= w < dsts.len() && touches(code[j], #[trigger] dsts[w]),
{
    if touches_pending(code, i, j) {
        let k = choose|k: int|
            i <= k < j && is_read(#[trigger] code[k]) && touches(code[j], read_dst(code[k]));
        assert(dsts.contains(read_dst(code[k])));
        let w = choose|w: int| 0 <= w < dsts.len() && dsts[w] == read_dst(code[k]);
        assert(touches(code[j], dsts[w]));
    }
    if exists|w: int| 0 <= w < dsts.len() && touches(code[j], #[trigger] dsts[w]) {
        let w = choose|w: int| 0 <= w < dsts.len() && touches(code[j], #[trigger] dsts[w]);
        assert(some_read_fills(code, i, j, dsts[w]));
        let k = choose|k: int|
            i <= k < j && is_read(#[trigger] code[k]) && read_dst(code[k]) == dsts[w];
        assert(is_read(code[k]));
    }
}

/// The last read of the cluster that starts at `i`.
#[verifier::loop_isolation(false)]
#[verifier::rlimit(30)]
fn find_last_read(code: &Vec<Instr>, silent: &Vec<bool>, marks: &Vec<bool>, i: usize) -> (l: usize)
    requires
        i < code@.len(),
        is_read(code@[i as int]),
        marks@.len() == code@.len(),
        forall|j: int| 0 <= j < code@.len() ==> #[trigger] marks@[j] == is_target(code@, j),
    ensures
        l == cluster_last(code@, silent@, i as int),
        i <= l < code@.len(),
{
    let n: usize = code.len();
    let ghost at = i as int;
    let mut dsts: Vec<u16> = Vec::new();
    match as_read(&code[i]) {
        Some(ReadOp::State { dst, key_idx: _ }) => dsts.push(dst),
        Some(ReadOp::Path { dst, path_idx: _ }) => dsts.push(dst),
        None => {},
    }
    proof {
        lemma_fills_push(code@, at, at, seq![]);
        assert(seq![].push(read_dst(code@[at])) =~= dsts@);
    }
    let mut l: usize = i;
    let mut j: usize = i + 1;
    while j < n
        invariant
            i <= l < j <= n,
            fills(code@, at, j as int, dsts@),
            l == last_read(code@, at, j as int),
            cluster_end(code@, silent@, at, at + 1) == cluster_end(code@, silent@, at, j as int),
        decreases code@.len() - j,
    {
        proof {
            lemma_fills_touch(code@, at, j as int, dsts@);
            lemma_fills_push(code@, at, j as int, dsts@);
        }
        if cluster_breaker(&code[j], silent) || marks[j] || touches_any(&code[j], &dsts) {
            return l;
        }
        match as_read(&code[j]) {
            Some(ReadOp::State { dst, key_idx: _ }) => {
                dsts.push(dst);
                l = j;
            },
            Some(ReadOp::Path { dst, path_idx: _ }) => {
                dsts.push(dst);
                l = j;
            },
            None => {},
        }
        j = j + 1;
    }
    l
}

/// What stands in the lists of reads and of the other instructions.
proof fn lemma_others_range(code: Seq<Instr>, i: int, j: int)
    ensures
        forall|q: int|
            0 <= q < others_in(code, i, j).len() ==> match #[trigger] others_in(code, i, j)[q] {
                Slot::One(o) => i <= o < j && !is_read(code[o]),
                Slot::Batch(_) => false,
            },
        forall|q: int|
            0 <= q < reads_in(code, i, j).len() ==> i <= #[trigger] reads_in(code, i, j)[q] < j && is_read(
                code[reads_in(code, i, j)[q]],
            ),
    decreases j - i,
{
    if j > i {
        lemma_others_range(code, i, j - 1);
        let before = reads_in(code, i, j - 1);
        assert forall|q: int| 0 <= q < reads_in(code, i, j).len() implies i <= #[trigger] reads_in(code, i, j)[q]
            < j && is_read(code[reads_in(code, i, j)[q]]) by {
            if q < before.len() {
                assert(i <= before[q] < j - 1);
            }
        }
    }
}

/// The reads and the others between two places are all that stands there.
proof fn lemma_counts(code: Seq<Instr>, i: int, j: int)
    requires
        i <= j,
    ensures
        reads_in(code, i, j).len() + others_in(code, i, j).len() == j - i,
    decreases j - i,
{
    if i < j {
        lemma_counts(code, i, j - 1);
    }
}

/// What a cluster's slots hold: its last read is the last place of the batch.
proof fn lemma_cluster_slot(code: Seq<Instr>, silent: Seq<bool>, i: int)
    requires
        0 <= i < code.len(),
        is_read(code[i]),
    ensures
        ({
            let last = cluster_last(code, silent, i);
            let rs = reads_in(code, i, last + 1);
            &&& rs.len() > 0
            &&& rs.last() == last
            &&& reach(reads_slot(rs)) == last
            &&& in_range(reads_slot(rs), code.len() as int)
            &&& rs.len() + others_in(code, i, last).len() == last + 1 - i
        }),
{
    lemma_cluster(code, silent, i);
    let last = cluster_last(code, silent, i);
    lemma_others_range(code, i, last + 1);
    lemma_counts(code, i, last + 1);
}

/// The slots of the code, in memory.
#[verifier::loop_isolation(false)]
#[verifier::rlimit(60)]
fn place_all(code: &Vec<Instr>, silent: &Vec<bool>) -> (out: Vec<Placed>)
    ensures
        placed(out@) == slots(code@, silent@),
        forall|p: int| 0 <= p < out@.len() ==> in_range(#[trigger] placed(out@)[p], code@.len() as int),
        out@.len() <= code@.len(),
{
    let marks = targets(code);
    let mut out: Vec<Placed> = Vec::new();
    let mut i: usize = 0;
    assert(placed(out@) =~= seq![]);
    assert(placed(out@) + slots_from(code@, silent@, 0) =~= slots(code@, silent@));
    while i < code.len()
        invariant
            i <= code@.len(),
            out@.len() <= i,
            placed(out@) + slots_from(code@, silent@, i as int) == slots(code@, silent@),
            forall|p: int|
                0 <= p < out@.len() ==> in_range(#[trigger] placed(out@)[p], code@.len() as int),
        decreases code@.len() - i,
    {
        let ghost before = placed(out@);
        if as_read(&code[i]).is_some() {
            let l: usize = find_last_read(code, silent, &marks, i);
            let mut reads: Vec<usize> = Vec::new();
            let mut k: usize = i;
            assert(ints(reads@) =~= reads_in(code@, i as int, i as int));
            assert(placed(out@) =~= before + others_in(code@, i as int, i as int));
            while k < l
                invariant
                    i <= k <= l < code@.len(),
                    ints(reads@) == reads_in(code@, i as int, k as int),
                    placed(out@) == before + others_in(code@, i as int, k as int),
                decreases l - k,
            {
                if as_read(&code[k]).is_some() {
                    reads.push(k);
                    assert(ints(reads@) =~= reads_in(code@, i as int, k + 1));
                } else {
                    let ghost prev = placed(out@);
                    out.push(Placed::One(k));
                    assert(placed(out@) =~= prev.push(Slot::One(k as int)));
                    assert(placed(out@) =~= before + others_in(code@, i as int, k + 1));
                }
                k = k + 1;
            }
            let ghost os = others_in(code@, i as int, l as int);
            proof {
                lemma_others_range(code@, i as int, l as int);
                lemma_cluster(code@, silent@, i as int);
                lemma_cluster_slot(code@, silent@, i as int);
            }
            reads.push(l);
            let ghost rs = ints(reads@);
            assert(rs =~= reads_in(code@, i as int, l + 1));
            let ghost mid = placed(out@);
            if reads.len() == 1 {
                assert(rs[0] == reads@[0]);
                out.push(Placed::One(reads[0]));
            } else {
                out.push(Placed::Batch(reads));
            }
            assert(placed(out@) =~= mid.push(reads_slot(rs)));
            assert(placed(out@) + slots_from(code@, silent@, l + 1) =~= before + slots_from(
                code@,
                silent@,
                i as int,
            ));
            assert forall|p: int| 0 <= p < out@.len() implies in_range(
                #[trigger] placed(out@)[p],
                code@.len() as int,
            ) by {
                if p < before.len() {
                    assert(placed(out@)[p] == before[p]);
                } else if p < before.len() + os.len() {
                    assert(placed(out@)[p] == os[p - before.len()]);
                }
            }
            i = l + 1;
        } else {
            out.push(Placed::One(i));
            assert(placed(out@) =~= before.push(Slot::One(i as int)));
            assert(placed(out@) + slots_from(code@, silent@, i + 1) =~= before + slots_from(
                code@,
                silent@,
                i as int,
            ));
            i = i + 1;
        }
    }
    assert(placed(out@) =~= slots(code@, silent@));
    out
}

/// The first slot that reaches a place.
proof fn lemma_landing_is(s: Seq<Slot>, target: int, from: int, p: int)
    requires
        0 <= from <= p <= s.len(),
        forall|q: int| from <= q < p ==> reach(#[trigger] s[q]) < target,
        p < s.len() ==> reach(s[p]) >= target,
    ensures
        landing_from(s, target, from) == p,
    decreases p - from,
{
    if from < p {
        assert(reach(s[from]) < target);
        lemma_landing_is(s, target, from + 1, p);
    }
}

proof fn lemma_landing_range(s: Seq<Slot>, target: int, p: int)
    requires
        0 <= p <= s.len(),
    ensures
        p <= landing_from(s, target, p) <= s.len(),
    decreases s.len() - p,
{
    if p < s.len() && reach(s[p]) < target {
        lemma_landing_range(s, target, p + 1);
    }
}

/// The last old place of a slot.
fn reach_of(s: &Placed, Ghost(n): Ghost<int>) -> (r: usize)
    requires
        in_range(placed_view(*s), n),
    ensures
        r == reach(placed_view(*s)),
{
    match s {
        Placed::One(o) => *o,
        Placed::Batch(ks) => {
            assert(ints(ks@).last() == ks@[ks@.len() - 1]);
            ks[ks.len() - 1]
        },
    }
}

/// Where a jump to each old place lands.
#[verifier::loop_isolation(false)]
fn landings(v: &Vec<Placed>, n: usize) -> (at: Vec<usize>)
    requires
        forall|p: int| 0 <= p < v@.len() ==> in_range(#[trigger] placed(v@)[p], n as int),
    ensures
        at@.len() == n,
        forall|o: int| 0 <= o < n ==> #[trigger] at@[o] == landing(placed(v@), o),
{
    let ghost s = placed(v@);
    let mut at: Vec<usize> = Vec::new();
    let mut p: usize = 0;
    while at.len() < n
        invariant
            p <= v@.len(),
            at@.len() <= n,
            forall|q: int| 0 <= q < p ==> reach(#[trigger] s[q]) < at@.len(),
            forall|o: int| 0 <= o < at@.len() ==> #[trigger] at@[o] == landing(s, o),
        decreases n - at@.len(),
    {
        let o: usize = at.len();
        while p < v.len() && reach_of(&v[p], Ghost(n as int)) < o
            invariant
                p <= v@.len(),
                forall|q: int| 0 <= q < p ==> reach(#[trigger] s[q]) < o,
                forall|q: int| 0 <= q < v@.len() ==> placed_view(#[trigger] v@[q]) == s[q] && in_range(s[q], n as int),
            decreases v@.len() - p,
        {
            assert(placed_view(v@[p as int]) == s[p as int]);
            p = p + 1;
        }
        proof {
            lemma_landing_is(s, o as int, 0, p as int);
        }
        at.push(p);
    }
    at
}

fn jump_offset(at: &Vec<usize>, s: &Vec<Placed>, p: usize, o: usize, offset: i32) -> (r: i32)
    requires
        p < s@.len() <= at@.len() <= i32::MAX,
        o < at@.len(),
        forall|k: int| 0 <= k < at@.len() ==> #[trigger] at@[k] == landing(placed(s@), k),
        forall|q: int| 0 <= q < s@.len() ==> in_range(#[trigger] placed(s@)[q], at@.len() as int),
    ensures
        r == new_offset(placed(s@), p as int, o as int, offset),
{
    let target: i64 = o as i64 + 1 + offset as i64;
    let ghost all = placed(s@);
    let lands: usize = if target < 0 {
        proof {
            if all.len() > 0 {
                assert(in_range(all[0], at@.len() as int));
            }
            lemma_landing_is(all, target as int, 0, 0);
        }
        0
    } else if (target as u64) < at.len() as u64 {
        at[target as usize]
    } else {
        proof {
            assert forall|q: int| 0 <= q < all.len() implies reach(#[trigger] all[q]) < target by {
                assert(in_range(all[q], at@.len() as int));
            }
            lemma_landing_is(all, target as int, 0, all.len() as int);
        }
        s.len()
    };
    proof {
        lemma_landing_range(all, target as int, 0);
    }
    (lands as i64 - p as i64 - 1) as i32
}

/// Clusters the reads of a function.
#[verifier::loop_isolation(false)]
#[verifier::rlimit(60)]
fn optimize_fn(f: &mut BcFn, silent: &Vec<bool>)
    requires
        old(f).code@.len() <= i32::MAX,
    ensures
        optimized_fn(*old(f), *final(f), silent@),
{
    let ghost f0 = *f;
    let n: usize = f.code.len();
    let v = place_all(&f.code, silent);
    let at = landings(&v, n);
    let ghost s = placed(v@);
    let ghost g0 = groups_view(f.read_groups@);
    let mut code: Vec<Instr> = Vec::new();
    let mut p: usize = 0;
    assert(groups_view(f.read_groups@) =~= g0 + groups_until(f0.code@, s, 0));
    while p < v.len()
        invariant
            p <= v@.len(),
            code@.len() == p,
            f.read_groups@.len() == f0.read_groups@.len() + batches(s, p as int),
            groups_view(f.read_groups@) == g0 + groups_until(f0.code@, s, p as int),
            *f == (BcFn { read_groups: f.read_groups, ..f0 }),
            forall|q: int|
                0 <= q < p ==> #[trigger] code@[q] == instr_at(f0.code@, s, f0.read_groups@.len(), q),
        decreases v@.len() - p,
    {
        assert(in_range(s[p as int], n as int));
        match &v[p] {
            Placed::One(o) => {
                let i = f.code[*o];
                let there = match leap(&i) {
                    Some(offset) => retarget(&i, jump_offset(&at, &v, p, *o, offset)),
                    None => i,
                };
                code.push(there);
            },
            Placed::Batch(ks) => {
                let mut group: Vec<ReadOp> = Vec::new();
                let mut k: usize = 0;
                let ghost is = ints(ks@);
                assert(s[p as int] == Slot::Batch(is));
                while k < ks.len()
                    invariant
                        k <= ks@.len(),
                        group@.len() == k,
                        forall|q: int| 0 <= q < k ==> #[trigger] group@[q] == read_op(f0.code@[is[q]]),
                    decreases ks@.len() - k,
                {
                    assert(is[k as int] == ks@[k as int]);
                    let op = match as_read(&f.code[ks[k]]) {
                        Some(op) => op,
                        None => ReadOp::State { dst: 0, key_idx: 0 },
                    };
                    group.push(op);
                    k = k + 1;
                }
                assert(group@ =~= group_of(f0.code@, is));
                let g: usize = f.read_groups.len();
                code.push(Instr::ReadBatch { group_idx: (g % 65536) as u16 });
                let ghost before = groups_view(f.read_groups@);
                f.read_groups.push(group);
                assert(groups_view(f.read_groups@) =~= before.push(group_of(f0.code@, is)));
                assert(groups_view(f.read_groups@) =~= g0 + groups_until(f0.code@, s, p + 1));
            },
        }
        p = p + 1;
    }
    assert(code@ =~= optimized_code(f0.code@, silent@, f0.read_groups@.len()));
    f.code = code;
}

/// Clusters the reads of every function of a module. `fn_effects` gives the
/// effects of the module's functions.
#[verifier::loop_isolation(false)]
#[verifier::rlimit(30)]
pub fn optimize(module: &mut BcModule, fn_effects: &EffectTable)
    requires
        addressable(*old(module)),
    ensures
        *final(module) == (BcModule { functions: final(module).functions, ..*old(module) }),
        final(module).functions@.len() == old(module).functions@.len(),
        forall|k: int|
            0 <= k < final(module).functions@.len() ==> optimized_fn(
                old(module).functions@[k],
                #[trigger] final(module).functions@[k],
                silent_calls(old(module).functions@, *fn_effects),
            ),
{
    let ghost m0 = *module;
    let mut silent: Vec<bool> = Vec::new();
    let n: usize = module.functions.len();
    while silent.len() < n
        invariant
            silent@.len() <= n,
            forall|k: int|
                0 <= k < silent@.len() ==> #[trigger] silent@[k] == silent_call(
                    m0.functions@,
                    *fn_effects,
                    k,
                ),
        decreases n - silent@.len(),
    {
        let k: usize = silent.len();
        let name = module.functions[k].name.as_str();
        let shown = match find_last(&module.functions, name) {
            Some(j) => j == k,
            None => false,
        };
        let quiet = match fn_effects.get(name) {
            Some(EffectClass::Pure) => true,
            Some(EffectClass::ReadOnly) => true,
            _ => false,
        };
        silent.push(shown && quiet);
    }
    assert(silent@ =~= silent_calls(m0.functions@, *fn_effects));
    let mut k: usize = 0;
    while k < n
        invariant
            k <= n,
            module.functions@.len() == n,
            *module == (BcModule { functions: module.functions, ..m0 }),
            forall|j: int|
                0 <= j < k ==> optimized_fn(
                    m0.functions@[j],
                    #[trigger] module.functions@[j],
                    silent@,
                ),
            forall|j: int| k <= j < n ==> #[trigger] module.functions@[j] == m0.functions@[j],
        decreases n - k,
    {
        assert(module.functions@[k as int] == m0.functions@[k as int]);
        let ghost before = module.functions@;
        optimize_fn(&mut module.functions[k], &silent);
        assert forall|j: int| 0 <= j < k + 1 implies optimized_fn(
            m0.functions@[j],
            #[trigger] module.functions@[j],
            silent@,
        ) by {
            if j < k {
                assert(module.functions@[j] == before[j]);
            }
        }
        k = k + 1;
    }
}

/// No instruction is lost and none is made up: each old instruction stands in
/// exactly one slot.
pub proof fn each_instruction_has_one_place(code: Seq<Instr>, silent: Seq<bool>, o: int)
    requires
        0 <= o < code.len(),
    ensures
        exists|p: int| 0 <= p < slots(code, silent).len() && holds(#[trigger] slots(code, silent)[p], o),
        forall|p: int, q: int|
            0 <= p < slots(code, silent).len() && 0 <= q < slots(code, silent).len() && holds(
                #[trigger] slots(code, silent)[p],
                o,
            ) && holds(#[trigger] slots(code, silent)[q], o) ==> p == q,
{
    lemma_one_place(code, silent, 0, o);
    let p = choose|p: int|
        0 <= p < slots_from(code, silent, 0).len() && holds(#[trigger] slots_from(code, silent, 0)[p], o);
    assert(holds(slots(code, silent)[p], o));
}

/// What a cluster puts before the slots that follow it.
spec fn cluster_slots(code: Seq<Instr>, silent: Seq<bool>, i: int) -> Seq<Slot> {
    let last = cluster_last(code, silent, i);
    others_in(code, i, last).push(reads_slot(reads_in(code, i, last + 1)))
}

/// The slots from `i` on are those of the first cluster or instruction, then the rest.
proof fn lemma_unfold(code: Seq<Instr>, silent: Seq<bool>, i: int)
    requires
        0 <= i < code.len(),
    ensures
        is_read(code[i]) ==> slots_from(code, silent, i) == cluster_slots(code, silent, i) + slots_from(
            code,
            silent,
            cluster_last(code, silent, i) + 1,
        ),
        !is_read(code[i]) ==> slots_from(code, silent, i) == seq![Slot::One(i)] + slots_from(
            code,
            silent,
            i + 1,
        ),
{
    if is_read(code[i]) {
        let last = cluster_last(code, silent, i);
        assert(slots_from(code, silent, i) =~= cluster_slots(code, silent, i) + slots_from(
            code,
            silent,
            last + 1,
        ));
    }
}

/// The slots of a cluster hold places of the cluster, those of `i` up to its
/// last read, and each of them once.
#[verifier::rlimit(30)]
proof fn lemma_cluster_holds(code: Seq<Instr>, silent: Seq<bool>, i: int)
    requires
        0 <= i < code.len(),
        is_read(code[i]),
    ensures
        ({
            let c = cluster_slots(code, silent, i);
            let last = cluster_last(code, silent, i);
            &&& forall|p: int, o: int|
                0 <= p < c.len() && #[trigger] holds(c[p], o) ==> i <= o <= last && (is_read(code[o]) <==> p
                    == c.len() - 1)
            &&& forall|p: int| 0 <= p < c.len() ==> i <= reach(#[trigger] c[p]) <= last
            &&& forall|p: int| 0 <= p < c.len() - 1 ==> (#[trigger] c[p]) is One
        }),
{
    lemma_cluster(code, silent, i);
    lemma_cluster_slot(code, silent, i);
    let c = cluster_slots(code, silent, i);
    let last = cluster_last(code, silent, i);
    let os = others_in(code, i, last);
    let rs = reads_in(code, i, last + 1);
    lemma_others_range(code, i, last);
    lemma_others_range(code, i, last + 1);
    assert forall|p: int, o: int| 0 <= p < c.len() && #[trigger] holds(c[p], o) implies i <= o <= last && (
    is_read(code[o]) <==> p == c.len() - 1) by {
        if p < os.len() {
            assert(c[p] == os[p]);
        } else {
            assert(c[p] == reads_slot(rs));
            if rs.len() == 1 {
                assert(rs[0] == o);
            } else {
                let w = choose|w: int| 0 <= w < rs.len() && rs[w] == o;
                assert(i <= rs[w] < last + 1);
            }
        }
    }
    assert forall|p: int| 0 <= p < c.len() implies i <= reach(#[trigger] c[p]) <= last by {
        if p < os.len() {
            assert(c[p] == os[p]);
        }
    }
    assert forall|p: int| 0 <= p < c.len() - 1 implies (#[trigger] c[p]) is One by {
        assert(c[p] == os[p]);
    }
}

/// What the slots from `i` on hold stood at `i` or later.
proof fn lemma_from_range(code: Seq<Instr>, silent: Seq<bool>, i: int, p: int)
    requires
        0 <= i <= code.len(),
        0 <= p < slots_from(code, silent, i).len(),
    ensures
        forall|o: int| #[trigger] holds(slots_from(code, silent, i)[p], o) ==> i <= o < code.len(),
        i <= reach(slots_from(code, silent, i)[p]) < code.len(),
    decreases code.len() - i,
{
    let s = slots_from(code, silent, i);
    if i < code.len() {
        lemma_unfold(code, silent, i);
        if is_read(code[i]) {
            let c = cluster_slots(code, silent, i);
            let last = cluster_last(code, silent, i);
            lemma_cluster(code, silent, i);
            lemma_cluster_holds(code, silent, i);
            if p < c.len() {
                assert(s[p] == c[p]);
            } else {
                assert(s[p] == slots_from(code, silent, last + 1)[p - c.len()]);
                lemma_from_range(code, silent, last + 1, p - c.len());
            }
        } else if p > 0 {
            assert(s[p] == slots_from(code, silent, i + 1)[p - 1]);
            lemma_from_range(code, silent, i + 1, p - 1);
        }
    }
}

/// Between two places every instruction is either a read or not, and listed once.
proof fn lemma_split_once(code: Seq<Instr>, i: int, j: int, o: int)
    requires
        i <= o < j,
    ensures
        is_read(code[o]) ==> reads_in(code, i, j).contains(o),
        !is_read(code[o]) ==> exists|q: int|
            0 <= q < others_in(code, i, j).len() && #[trigger] others_in(code, i, j)[q] == Slot::One(o),
        forall|p: int, q: int|
            0 <= p < others_in(code, i, j).len() && 0 <= q < others_in(code, i, j).len()
                && #[trigger] others_in(code, i, j)[p] == Slot::One(o) && #[trigger] others_in(code, i, j)[q]
                == Slot::One(o) ==> p == q,
    decreases j - i,
{
    lemma_others_range(code, i, j - 1);
    let rs = reads_in(code, i, j - 1);
    let os = others_in(code, i, j - 1);
    if o < j - 1 {
        lemma_split_once(code, i, j - 1, o);
        if is_read(code[o]) {
            let w = choose|w: int| 0 <= w < rs.len() && rs[w] == o;
            assert(reads_in(code, i, j)[w] == o);
        } else {
            let q = choose|q: int| 0 <= q < os.len() && #[trigger] os[q] == Slot::One(o);
            assert(others_in(code, i, j)[q] == Slot::One(o));
        }
        assert forall|p: int, q: int|
            0 <= p < others_in(code, i, j).len() && 0 <= q < others_in(code, i, j).len()
                && #[trigger] others_in(code, i, j)[p] == Slot::One(o) && #[trigger] others_in(code, i, j)[q]
                == Slot::One(o) implies p == q by {
            assert(p < os.len() && q < os.len());
            assert(os[p] == Slot::One(o) && os[q] == Slot::One(o));
        }
    } else {
        if is_read(code[o]) {
            assert(reads_in(code, i, j)[rs.len() as int] == o);
        } else {
            assert(others_in(code, i, j)[os.len() as int] == Slot::One(o));
        }
        assert forall|p: int, q: int|
            0 <= p < others_in(code, i, j).len() && 0 <= q < others_in(code, i, j).len()
                && #[trigger] others_in(code, i, j)[p] == Slot::One(o) && #[trigger] others_in(code, i, j)[q]
                == Slot::One(o) implies p == q by {
            if p < os.len() {
                assert(os[p] == others_in(code, i, j)[p]);
            }
            if q < os.len() {
                assert(os[q] == others_in(code, i, j)[q]);
            }
        }
    }
}

/// Each place of a cluster stands in exactly one of its slots.
#[verifier::rlimit(30)]
proof fn lemma_cluster_once(code: Seq<Instr>, silent: Seq<bool>, i: int, o: int) -> (at: int)
    requires
        0 <= i < code.len(),
        is_read(code[i]),
        i <= o <= cluster_last(code, silent, i),
    ensures
        0 <= at < cluster_slots(code, silent, i).len(),
        holds(cluster_slots(code, silent, i)[at], o),
        forall|p: int|
            0 <= p < cluster_slots(code, silent, i).len() && holds(
                #[trigger] cluster_slots(code, silent, i)[p],
                o,
            ) ==> p == at,
{
    let c = cluster_slots(code, silent, i);
    let last = cluster_last(code, silent, i);
    let os = others_in(code, i, last);
    let rs = reads_in(code, i, last + 1);
    lemma_cluster(code, silent, i);
    lemma_cluster_slot(code, silent, i);
    lemma_cluster_holds(code, silent, i);
    lemma_split_once(code, i, last + 1, o);
    if is_read(code[o]) {
        let w = choose|w: int| 0 <= w < rs.len() && rs[w] == o;
        assert(rs[w] == o);
        assert(holds(c[c.len() - 1], o));
        assert forall|p: int| 0 <= p < c.len() && holds(#[trigger] c[p], o) implies p == c.len() - 1 by {}
        c.len() - 1
    } else {
        lemma_split_once(code, i, last, o);
        let at = choose|q: int| 0 <= q < os.len() && #[trigger] os[q] == Slot::One(o);
        assert(c[at] == os[at]);
        assert forall|p: int| 0 <= p < c.len() && holds(#[trigger] c[p], o) implies p == at by {
            assert(p < os.len());
            assert(c[p] == os[p]);
            assert(c[p] is One);
            assert(os[p] == Slot::One(o));
        }
        at
    }
}

#[verifier::rlimit(30)]
proof fn lemma_one_place(code: Seq<Instr>, silent: Seq<bool>, i: int, o: int)
    requires
        0 <= i <= o < code.len(),
    ensures
        exists|p: int|
            0 <= p < slots_from(code, silent, i).len() && holds(#[trigger] slots_from(code, silent, i)[p], o),
        forall|p: int, q: int|
            0 <= p < slots_from(code, silent, i).len() && 0 <= q < slots_from(code, silent, i).len()
                && holds(#[trigger] slots_from(code, silent, i)[p], o) && holds(
                #[trigger] slots_from(code, silent, i)[q],
                o,
            ) ==> p == q,
    decreases code.len() - i,
{
    let s = slots_from(code, silent, i);
    lemma_unfold(code, silent, i);
    let c = if is_read(code[i]) {
        cluster_slots(code, silent, i)
    } else {
        seq![Slot::One(i)]
    };
    let next = if is_read(code[i]) {
        cluster_last(code, silent, i) + 1
    } else {
        i + 1
    };
    let rest = slots_from(code, silent, next);
    if is_read(code[i]) {
        lemma_cluster(code, silent, i);
        lemma_cluster_holds(code, silent, i);
    }
    assert(s == c + rest);
    if o < next {
        let at = if is_read(code[i]) {
            lemma_cluster_once(code, silent, i, o)
        } else {
            0
        };
        assert(s[at] == c[at]);
        assert forall|p: int| 0 <= p < s.len() && holds(#[trigger] s[p], o) implies p == at by {
            if p >= c.len() {
                assert(s[p] == rest[p - c.len()]);
                lemma_from_range(code, silent, next, p - c.len());
            } else {
                assert(s[p] == c[p]);
            }
        }
    } else {
        lemma_one_place(code, silent, next, o);
        let at = choose|p: int| 0 <= p < rest.len() && holds(#[trigger] rest[p], o);
        assert(s[at + c.len()] == rest[at]);
        assert forall|p: int| 0 <= p < s.len() && holds(#[trigger] s[p], o) implies p == at + c.len() by {
            if p < c.len() {
                assert(s[p] == c[p]);
                assert(holds(c[p], o));
            } else {
                assert(s[p] == rest[p - c.len()]);
            }
        }
    }
}

/// There are at most as many slots as instructions.
proof fn lemma_slots_len(code: Seq<Instr>, silent: Seq<bool>, i: int)
    requires
        0 <= i <= code.len(),
    ensures
        slots_from(code, silent, i).len() <= code.len() - i,
    decreases code.len() - i,
{
    if i < code.len() {
        if is_read(code[i]) {
            lemma_cluster(code, silent, i);
            lemma_cluster_slot(code, silent, i);
            lemma_slots_len(code, silent, cluster_last(code, silent, i) + 1);
        } else {
            lemma_slots_len(code, silent, i + 1);
        }
    }
}

/// Whether the slots from `p` on are those of the code from `i` on, and all that
/// stands before them stood before `i`.
spec fn boundary(code: Seq<Instr>, silent: Seq<bool>, all: Seq<Slot>, i: int, p: int) -> bool {
    &&& 0 <= i <= code.len()
    &&& 0 <= p <= all.len()
    &&& all.skip(p) == slots_from(code, silent, i)
    &&& forall|q: int| 0 <= q < p ==> reach(#[trigger] all[q]) < i
}

/// How many slots the cluster or the instruction at `i` takes.
spec fn width(code: Seq<Instr>, silent: Seq<bool>, i: int) -> int {
    if is_read(code[i]) {
        cluster_slots(code, silent, i).len() as int
    } else {
        1
    }
}

/// The place behind the cluster or the instruction at `i`.
spec fn behind(code: Seq<Instr>, silent: Seq<bool>, i: int) -> int {
    if is_read(code[i]) {
        cluster_last(code, silent, i) + 1
    } else {
        i + 1
    }
}

/// Behind a cluster or an instruction there is a boundary again.
proof fn lemma_next_boundary(code: Seq<Instr>, silent: Seq<bool>, all: Seq<Slot>, i: int, p: int)
    requires
        boundary(code, silent, all, i, p),
        i < code.len(),
    ensures
        i < behind(code, silent, i) <= code.len(),
        1 <= width(code, silent, i),
        boundary(code, silent, all, behind(code, silent, i), p + width(code, silent, i)),
        is_read(code[i]) ==> forall|q: int|
            0 <= q < width(code, silent, i) ==> #[trigger] all[p + q] == cluster_slots(code, silent, i)[q],
        !is_read(code[i]) ==> all[p] == Slot::One(i),
{
    lemma_unfold(code, silent, i);
    let c = if is_read(code[i]) {
        cluster_slots(code, silent, i)
    } else {
        seq![Slot::One(i)]
    };
    let next = behind(code, silent, i);
    if is_read(code[i]) {
        lemma_cluster(code, silent, i);
        lemma_cluster_holds(code, silent, i);
    }
    let rest = slots_from(code, silent, next);
    let s = all.skip(p);
    assert(s == c + rest);
    assert(s.len() == c.len() + rest.len());
    assert forall|q: int| 0 <= q < c.len() implies #[trigger] all[p + q] == c[q] by {
        assert(s[q] == c[q]);
    }
    let e = p + c.len();
    assert(all.skip(e) =~= rest) by {
        assert forall|q: int| 0 <= q < rest.len() implies #[trigger] all.skip(e)[q] == rest[q] by {
            assert(s[q + c.len()] == rest[q]);
        }
    }
    assert forall|q: int| 0 <= q < e implies reach(#[trigger] all[q]) < next by {
        if q >= p {
            assert(all[p + (q - p)] == c[q - p]);
            assert(reach(c[q - p]) < next);
        }
    }
    assert(all[p + 0] == c[0]);
}

/// A jump to a boundary lands there.
proof fn lemma_lands(code: Seq<Instr>, silent: Seq<bool>, all: Seq<Slot>, i: int, p: int)
    requires
        boundary(code, silent, all, i, p),
    ensures
        landing(all, i) == p,
{
    if p < all.len() {
        assert(all.skip(p)[0] == slots_from(code, silent, i)[0]);
        lemma_from_range(code, silent, i, 0);
    }
    lemma_landing_is(all, i, 0, p);
}

/// Every place that a jump lands on is a boundary: no cluster runs over it.
proof fn lemma_target_is_boundary(code: Seq<Instr>, silent: Seq<bool>, all: Seq<Slot>, i: int, p: int, t: int)
    requires
        boundary(code, silent, all, i, p),
        i <= t <= code.len(),
        t < code.len() ==> is_target(code, t),
    ensures
        boundary(code, silent, all, t, landing(all, t)),
    decreases t - i,
{
    if i == t {
        lemma_lands(code, silent, all, i, p);
    } else {
        lemma_next_boundary(code, silent, all, i, p);
        if is_read(code[i]) && t <= cluster_last(code, silent, i) {
            lemma_cluster(code, silent, i);
            assert(!ends(code, silent, i, t));
        }
        lemma_target_is_boundary(
            code,
            silent,
            all,
            behind(code, silent, i),
            p + width(code, silent, i),
            t,
        );
    }
}

/// The slots of the whole code start at a boundary.
proof fn lemma_first_boundary(code: Seq<Instr>, silent: Seq<bool>)
    ensures
        boundary(code, silent, slots(code, silent), 0, 0),
{
    assert(slots(code, silent).skip(0) =~= slots(code, silent));
}

/// What one instruction does: it goes on to the next, jumps, or ends the function
/// with a result.
#[verifier::reject_recursive_types(V)]
pub enum Turn<V, W> {
    On(Map<u16, V>, W),
    Leap(Map<u16, V>, W),
    Stop(V, W),
}

/// A meaning of the instructions over registers and a world: what a read finds in
/// the world, and what every other instruction does.
#[verifier::reject_recursive_types(V)]
#[verifier::reject_recursive_types(W)]
pub struct Meaning<V, W> {
    pub read: spec_fn(W, ReadOp) -> V,
    pub act: spec_fn(Instr, Map<u16, V>, W) -> Turn<V, W>,
}

/// What an instruction does where one register holds another value that it neither
/// uses nor writes.
pub open spec fn beside<V, W>(t: Turn<V, W>, r: u16, v: V) -> Turn<V, W> {
    match t {
        Turn::On(regs, w) => Turn::On(regs.insert(r, v), w),
        Turn::Leap(regs, w) => Turn::Leap(regs.insert(r, v), w),
        Turn::Stop(x, w) => Turn::Stop(x, w),
    }
}

/// Whether an instruction leaves a register alone: it does the same whatever the
/// register holds.
pub open spec fn leaves_alone<V, W>(m: Meaning<V, W>, i: Instr, r: u16) -> bool {
    forall|regs: Map<u16, V>, w: W, v: V| #[trigger]
        (m.act)(i, regs.insert(r, v), w) == beside((m.act)(i, regs, w), r, v)
}

/// Whether an instruction goes on or stops and changes nothing that a read could find.
pub open spec fn is_quiet<V, W>(m: Meaning<V, W>, i: Instr) -> bool {
    forall|regs: Map<u16, V>, w: W|
        match #[trigger] (m.act)(i, regs, w) {
            Turn::On(_, after) => finds_alike(m, w, after),
            Turn::Leap(_, _) => false,
            Turn::Stop(_, _) => true,
        }
}

/// Whether reads find the same in two worlds.
pub open spec fn finds_alike<V, W>(m: Meaning<V, W>, w: W, after: W) -> bool {
    forall|op: ReadOp| #[trigger] (m.read)(after, op) == (m.read)(w, op)
}

/// Whether what an instruction does has nothing to do with how far it jumps.
pub open spec fn ignores_distance<V, W>(m: Meaning<V, W>, i: Instr) -> bool {
    forall|offset: i32, regs: Map<u16, V>, w: W| #[trigger]
        (m.act)(retargeted(i, offset), regs, w) == (m.act)(i, regs, w)
}

/// Whether a meaning keeps to what is said of the instructions here: one has to do
/// with no register but those that it uses or writes, one that ends no cluster
/// only goes on and changes nothing that a read could find, and the distance of a
/// jump plays no part in whether it is taken.
pub open spec fn faithful<V, W>(m: Meaning<V, W>, silent: Seq<bool>) -> bool {
    &&& forall|i: Instr, r: u16|
        !is_read(i) && !(i is ReadBatch) && !touches(i, r) ==> #[trigger] leaves_alone(m, i, r)
    &&& forall|i: Instr| !is_read(i) && !breaks(i, silent) ==> #[trigger] is_quiet(m, i)
    &&& forall|i: Instr| leap_of(i) is Some ==> #[trigger] ignores_distance(m, i)
}

/// The register that a member of a batch fills.
pub open spec fn op_dst(op: ReadOp) -> u16 {
    match op {
        ReadOp::State { dst, .. } => dst,
        ReadOp::Path { dst, .. } => dst,
    }
}

/// The registers after reads, one after the other.
pub open spec fn filled<V, W>(m: Meaning<V, W>, ops: Seq<ReadOp>, regs: Map<u16, V>, w: W) -> Map<u16, V>
    decreases ops.len(),
{
    if ops.len() == 0 {
        regs
    } else {
        filled(m, ops.drop_last(), regs, w).insert(op_dst(ops.last()), (m.read)(w, ops.last()))
    }
}

/// The reads that an instruction issues, if it is one that does.
pub open spec fn issues(i: Instr, groups: Seq<Seq<ReadOp>>) -> Option<Seq<ReadOp>> {
    match i {
        Instr::KvGet { .. } => Some(seq![read_op(i)]),
        Instr::KvGetPath { .. } => Some(seq![read_op(i)]),
        Instr::ReadBatch { group_idx } => Some(groups[group_idx as int]),
        _ => None,
    }
}

/// What code gives, run from a place for at most `n` instructions: its result and
/// the world then, once it stops.
pub open spec fn outcome<V, W>(
    m: Meaning<V, W>,
    code: Seq<Instr>,
    groups: Seq<Seq<ReadOp>>,
    pc: int,
    regs: Map<u16, V>,
    w: W,
    n: nat,
) -> Option<(V, W)>
    decreases n,
{
    if n == 0 || pc < 0 || pc >= code.len() {
        None
    } else {
        let left = (n - 1) as nat;
        match issues(code[pc], groups) {
            Some(ops) => outcome(m, code, groups, pc + 1, filled(m, ops, regs, w), w, left),
            None => match (m.act)(code[pc], regs, w) {
                Turn::On(r, after) => outcome(m, code, groups, pc + 1, r, after, left),
                Turn::Leap(r, after) => match leap_of(code[pc]) {
                    Some(offset) => outcome(m, code, groups, pc + 1 + offset, r, after, left),
                    None => None,
                },
                Turn::Stop(v, after) => Some((v, after)),
            },
        }
    }
}

/// Whether code, run from its start, ends with a result and leaves a world behind.
pub open spec fn ends_with<V, W>(
    m: Meaning<V, W>,
    code: Seq<Instr>,
    groups: Seq<Seq<ReadOp>>,
    regs: Map<u16, V>,
    w: W,
    x: (V, W),
) -> bool {
    exists|n: nat| #[trigger] outcome(m, code, groups, 0, regs, w, n) == Some(x)
}

/// Whether every jump of the code lands in it or at its end, and every batch is a
/// group that is there.
pub open spec fn well_linked(code: Seq<Instr>, groups: nat) -> bool {
    forall|k: int|
        0 <= k < code.len() ==> match #[trigger] code[k] {
            Instr::ReadBatch { group_idx } => group_idx < groups,
            i => match leap_of(i) {
                Some(offset) => 0 <= k + 1 + offset <= code.len(),
                None => true,
            },
        }
}

/// What the code from `pc` up to `end` does, straight on.
spec fn line<V, W>(
    m: Meaning<V, W>,
    code: Seq<Instr>,
    groups: Seq<Seq<ReadOp>>,
    pc: int,
    end: int,
    regs: Map<u16, V>,
    w: W,
) -> Turn<V, W>
    decreases end - pc,
{
    if pc >= end {
        Turn::On(regs, w)
    } else {
        match issues(code[pc], groups) {
            Some(ops) => line(m, code, groups, pc + 1, end, filled(m, ops, regs, w), w),
            None => match (m.act)(code[pc], regs, w) {
                Turn::On(r, after) => line(m, code, groups, pc + 1, end, r, after),
                t => t,
            },
        }
    }
}

/// A run through a straight stretch of code.
proof fn lemma_line_forth<V, W>(
    m: Meaning<V, W>,
    code: Seq<Instr>,
    groups: Seq<Seq<ReadOp>>,
    pc: int,
    end: int,
    regs: Map<u16, V>,
    w: W,
    n: nat,
)
    requires
        0 <= pc <= end <= code.len(),
        outcome(m, code, groups, pc, regs, w, n) is Some,
    ensures
        match line(m, code, groups, pc, end, regs, w) {
            Turn::On(r, after) => n >= end - pc && outcome(m, code, groups, pc, regs, w, n) == outcome(
                m,
                code,
                groups,
                end,
                r,
                after,
                (n - (end - pc)) as nat,
            ),
            Turn::Leap(_, _) => true,
            Turn::Stop(v, after) => outcome(m, code, groups, pc, regs, w, n) == Some((v, after)),
        },
    decreases end - pc,
{
    if pc < end {
        let left = (n - 1) as nat;
        match issues(code[pc], groups) {
            Some(ops) => lemma_line_forth(m, code, groups, pc + 1, end, filled(m, ops, regs, w), w, left),
            None => match (m.act)(code[pc], regs, w) {
                Turn::On(r, after) => lemma_line_forth(m, code, groups, pc + 1, end, r, after, left),
                _ => {},
            },
        }
    }
}

/// A run up to a straight stretch of code and through it.
proof fn lemma_line_back<V, W>(
    m: Meaning<V, W>,
    code: Seq<Instr>,
    groups: Seq<Seq<ReadOp>>,
    pc: int,
    end: int,
    regs: Map<u16, V>,
    w: W,
    k: nat,
)
    requires
        0 <= pc <= end <= code.len(),
    ensures
        match line(m, code, groups, pc, end, regs, w) {
            Turn::On(r, after) => outcome(m, code, groups, pc, regs, w, (k + (end - pc)) as nat) == outcome(
                m,
                code,
                groups,
                end,
                r,
                after,
                k,
            ),
            Turn::Leap(_, _) => true,
            Turn::Stop(v, after) => outcome(m, code, groups, pc, regs, w, (k + (end - pc)) as nat) == Some(
                (v, after),
            ),
        },
    decreases end - pc,
{
    if pc < end {
        match issues(code[pc], groups) {
            Some(ops) => lemma_line_back(m, code, groups, pc + 1, end, filled(m, ops, regs, w), w, k),
            None => match (m.act)(code[pc], regs, w) {
                Turn::On(r, after) => lemma_line_back(m, code, groups, pc + 1, end, r, after, k),
                _ => {},
            },
        }
    }
}

/// The reads between two places, as members of a batch.
spec fn ops_in(code: Seq<Instr>, i: int, j: int) -> Seq<ReadOp> {
    group_of(code, reads_in(code, i, j))
}

/// The lists of reads and of others, seen from the front.
proof fn lemma_lists_front(code: Seq<Instr>, i: int, j: int)
    requires
        i < j,
    ensures
        is_read(code[i]) ==> reads_in(code, i, j) == seq![i] + reads_in(code, i + 1, j) && others_in(code, i, j)
            == others_in(code, i + 1, j),
        !is_read(code[i]) ==> reads_in(code, i, j) == reads_in(code, i + 1, j) && others_in(code, i, j) == seq![
            Slot::One(i),
        ] + others_in(code, i + 1, j),
    decreases j - i,
{
    if i + 1 < j {
        lemma_lists_front(code, i, j - 1);
    }
    assert(others_in(code, i, i) =~= seq![]);
    assert(reads_in(code, i, i) =~= seq![]);
    if is_read(code[i]) {
        assert(reads_in(code, i, j) =~= seq![i] + reads_in(code, i + 1, j));
        assert(others_in(code, i, j) =~= others_in(code, i + 1, j));
    } else {
        assert(reads_in(code, i, j) =~= reads_in(code, i + 1, j));
        assert(others_in(code, i, j) =~= seq![Slot::One(i)] + others_in(code, i + 1, j));
    }
}

/// What the instructions between two places that are no reads do, straight on.
spec fn others_line<V, W>(m: Meaning<V, W>, code: Seq<Instr>, pc: int, end: int, regs: Map<u16, V>, w: W) -> Turn<
    V,
    W,
>
    decreases end - pc,
{
    if pc >= end {
        Turn::On(regs, w)
    } else if is_read(code[pc]) {
        others_line(m, code, pc + 1, end, regs, w)
    } else {
        match (m.act)(code[pc], regs, w) {
            Turn::On(r, after) => others_line(m, code, pc + 1, end, r, after),
            t => t,
        }
    }
}

/// Reads fill the same values where they find the same.
proof fn lemma_filled_alike<V, W>(m: Meaning<V, W>, ops: Seq<ReadOp>, regs: Map<u16, V>, w: W, after: W)
    requires
        finds_alike(m, w, after),
    ensures
        filled(m, ops, regs, after) == filled(m, ops, regs, w),
    decreases ops.len(),
{
    if ops.len() > 0 {
        lemma_filled_alike(m, ops.drop_last(), regs, w, after);
        assert((m.read)(after, ops.last()) == (m.read)(w, ops.last()));
    }
}

/// An instruction that leaves the registers of some reads alone does the same
/// before the reads as after them.
proof fn lemma_commutes<V, W>(m: Meaning<V, W>, i: Instr, ops: Seq<ReadOp>, regs: Map<u16, V>, w: W)
    requires
        forall|k: int| 0 <= k < ops.len() ==> leaves_alone(m, i, op_dst(#[trigger] ops[k])),
    ensures
        (m.act)(i, filled(m, ops, regs, w), w) == match (m.act)(i, regs, w) {
            Turn::On(r, after) => Turn::On(filled(m, ops, r, w), after),
            Turn::Leap(r, after) => Turn::Leap(filled(m, ops, r, w), after),
            Turn::Stop(v, after) => Turn::Stop(v, after),
        },
    decreases ops.len(),
{
    if ops.len() > 0 {
        let less = ops.drop_last();
        assert forall|k: int| 0 <= k < less.len() implies leaves_alone(m, i, op_dst(#[trigger] less[k])) by {
            assert(less[k] == ops[k]);
        }
        lemma_commutes(m, i, less, regs, w);
        let r = op_dst(ops.last());
        assert(ops[ops.len() - 1] == ops.last());
        assert(leaves_alone(m, i, r));
        assert((m.act)(i, filled(m, less, regs, w).insert(r, (m.read)(w, ops.last())), w) == beside(
            (m.act)(i, filled(m, less, regs, w), w),
            r,
            (m.read)(w, ops.last()),
        ));
    }
}

/// A stretch of code in which nothing touches what its reads are to fill, nor what
/// the reads `ops` before it have filled, does the same with all the reads at its end.
#[verifier::rlimit(60)]
proof fn lemma_reads_last<V, W>(
    m: Meaning<V, W>,
    code: Seq<Instr>,
    groups: Seq<Seq<ReadOp>>,
    silent: Seq<bool>,
    i: int,
    j: int,
    end: int,
    regs: Map<u16, V>,
    w: W,
)
    requires
        faithful(m, silent),
        0 <= i <= j <= end <= code.len(),
        forall|k: int| i < k < end ==> !#[trigger] ends(code, silent, i, k),
        is_read(code[i]),
    ensures
        line(m, code, groups, j, end, filled(m, ops_in(code, i, j), regs, w), w) == match others_line(
            m,
            code,
            j,
            end,
            regs,
            w,
        ) {
            Turn::On(r, after) => Turn::On(filled(m, ops_in(code, i, end), r, after), after),
            t => t,
        },
        !(others_line(m, code, j, end, regs, w) is Leap),
    decreases end - j,
{
    let ops = ops_in(code, i, j);
    if j < end {
        let full = filled(m, ops, regs, w);
        if is_read(code[j]) {
            let op = read_op(code[j]);
            let more = ops_in(code, i, j + 1);
            assert(more =~= ops.push(op));
            assert(more.drop_last() =~= ops);
            let one = seq![op];
            assert(one.drop_last() =~= seq![]);
            reveal_with_fuel(filled, 2);
            assert(filled(m, one, full, w) == filled(m, more, regs, w));
            lemma_reads_last(m, code, groups, silent, i, j + 1, end, regs, w);
        } else {
            let it = code[j];
            assert(!ends(code, silent, i, j));
            assert(is_quiet(m, it));
            lemma_others_range(code, i, j);
            assert forall|k: int| 0 <= k < ops.len() implies leaves_alone(m, it, op_dst(#[trigger] ops[k])) by {
                let at = reads_in(code, i, j)[k];
                assert(is_read(code[at]));
                assert(op_dst(ops[k]) == read_dst(code[at]));
                assert(!touches(it, read_dst(code[at])));
            }
            lemma_commutes(m, it, ops, regs, w);
            assert(ops_in(code, i, j + 1) =~= ops);
            match (m.act)(it, regs, w) {
                Turn::On(r, after) => {
                    lemma_filled_alike(m, ops, r, w, after);
                    lemma_reads_last(m, code, groups, silent, i, j + 1, end, r, after);
                },
                _ => {},
            }
        }
    }
}

/// What the slots of a cluster do: first the others, then the reads.
#[verifier::rlimit(60)]
proof fn lemma_slots_line<V, W>(
    m: Meaning<V, W>,
    code: Seq<Instr>,
    new: Seq<Instr>,
    groups: Seq<Seq<ReadOp>>,
    silent: Seq<bool>,
    i: int,
    j: int,
    last: int,
    p: int,
    ops: Seq<ReadOp>,
    regs: Map<u16, V>,
    w: W,
)
    requires
        0 <= i <= j <= last < code.len(),
        0 <= p,
        p + others_in(code, j, last).len() < new.len(),
        forall|k: int| i < k <= last ==> !#[trigger] ends(code, silent, i, k),
        is_read(code[i]),
        faithful(m, silent),
        forall|q: int|
            0 <= q < others_in(code, j, last).len() ==> #[trigger] new[p + q] == code[reach(
                others_in(code, j, last)[q],
            )],
        issues(new[p + others_in(code, j, last).len()], groups) == Some(ops),
    ensures
        line(m, new, groups, p, p + others_in(code, j, last).len() + 1, regs, w) == match others_line(
            m,
            code,
            j,
            last,
            regs,
            w,
        ) {
            Turn::On(r, after) => Turn::On(filled(m, ops, r, after), after),
            t => t,
        },
    decreases last - j,
{
    let os = others_in(code, j, last);
    if j >= last {
        assert(os.len() == 0);
        reveal_with_fuel(line, 2);
    } else {
        lemma_lists_front(code, j, last);
        let rest = others_in(code, j + 1, last);
        if is_read(code[j]) {
            lemma_slots_line(m, code, new, groups, silent, i, j + 1, last, p, ops, regs, w);
        } else {
            assert(os[0] == Slot::One(j));
            assert(new[p + 0] == code[j]);
            assert(!ends(code, silent, i, j));
            assert(!(code[j] is ReadBatch));
            assert forall|q: int| 0 <= q < rest.len() implies #[trigger] new[p + 1 + q] == code[reach(rest[q])] by {
                assert(os[q + 1] == rest[q]);
                assert(new[p + (q + 1)] == code[reach(os[q + 1])]);
            }
            match (m.act)(code[j], regs, w) {
                Turn::On(r, after) => {
                    lemma_slots_line(m, code, new, groups, silent, i, j + 1, last, p + 1, ops, r, after);
                },
                _ => {},
            }
        }
    }
}

/// The group of a batch stands where its instruction says.
proof fn lemma_group_at(code: Seq<Instr>, s: Seq<Slot>, p: int, end: int)
    requires
        0 <= p < end <= s.len(),
        s[p] is Batch,
    ensures
        batches(s, p) < groups_until(code, s, end).len(),
        groups_until(code, s, end)[batches(s, p) as int] == group_of(code, s[p]->Batch_0),
    decreases end,
{
    lemma_group_count(code, s, end - 1);
    if p < end - 1 {
        lemma_group_at(code, s, p, end - 1);
    }
}

proof fn lemma_group_count(code: Seq<Instr>, s: Seq<Slot>, p: int)
    requires
        0 <= p <= s.len(),
    ensures
        groups_until(code, s, p).len() == batches(s, p),
    decreases p,
{
    if p > 0 {
        lemma_group_count(code, s, p - 1);
    }
}

/// Whether two codes with their groups belong together: one is the other optimized.
spec fn paired(code: Seq<Instr>, silent: Seq<bool>, groups: Seq<Seq<ReadOp>>, new: Seq<Instr>, all: Seq<Seq<ReadOp>>) -> bool {
    &&& code.len() <= i32::MAX
    &&& well_linked(code, groups.len())
    &&& new == optimized_code(code, silent, groups.len())
    &&& all == groups + added_groups(code, silent)
    &&& all.len() <= 65536
}

/// A cluster and the slots that take its place do the same.
#[verifier::rlimit(60)]
proof fn lemma_cluster_same<V, W>(
    m: Meaning<V, W>,
    code: Seq<Instr>,
    silent: Seq<bool>,
    groups: Seq<Seq<ReadOp>>,
    new: Seq<Instr>,
    all: Seq<Seq<ReadOp>>,
    i: int,
    p: int,
    regs: Map<u16, V>,
    w: W,
)
    requires
        faithful(m, silent),
        paired(code, silent, groups, new, all),
        boundary(code, silent, slots(code, silent), i, p),
        i < code.len(),
        is_read(code[i]),
    ensures
        line(m, new, all, p, p + width(code, silent, i), regs, w) == line(
            m,
            code,
            groups,
            i,
            behind(code, silent, i),
            regs,
            w,
        ),
        !(line(m, code, groups, i, behind(code, silent, i), regs, w) is Leap),
        p + width(code, silent, i) <= new.len(),
{
    let s = slots(code, silent);
    let last = cluster_last(code, silent, i);
    let os = others_in(code, i, last);
    let rs = reads_in(code, i, last + 1);
    let ops = ops_in(code, i, last + 1);
    lemma_cluster(code, silent, i);
    lemma_cluster_slot(code, silent, i);
    lemma_next_boundary(code, silent, s, i, p);
    lemma_others_range(code, i, last);
    lemma_others_range(code, i, last + 1);
    let c = cluster_slots(code, silent, i);
    let at = p + os.len();
    assert(s[p + os.len()] == c[os.len() as int]);
    assert forall|q: int| 0 <= q < os.len() implies #[trigger] new[p + q] == code[reach(os[q])] by {
        assert(s[p + q] == c[q]);
        assert(c[q] == os[q]);
        let o = reach(os[q]);
        assert(os[q] == Slot::One(o));
        assert(!ends(code, silent, i, o));
        assert(leap_of(code[o]) is None);
    }
    assert(issues(new[at], all) == Some(ops)) by {
        assert(s[at] == reads_slot(rs));
        if rs.len() == 1 {
            assert(is_read(code[rs[0]]));
            assert(ops =~= seq![read_op(code[rs[0]])]);
        } else {
            lemma_group_at(code, s, at, s.len() as int);
            let b = batches(s, at);
            assert(all[(groups.len() + b) as int] == group_of(code, rs));
            assert(new[at] == Instr::ReadBatch { group_idx: ((groups.len() + b) % 65536) as u16 });
            assert((groups.len() + b) % 65536 == groups.len() + b);
        }
    }
    lemma_slots_line(m, code, new, all, silent, i, i, last, p, ops, regs, w);
    assert(ops_in(code, i, i) =~= seq![]);
    lemma_reads_last(m, code, groups, silent, i, i, last + 1, regs, w);
    lemma_others_end(m, code, i, last, regs, w);
}

/// A read at the end of a stretch plays no part in what the others do.
proof fn lemma_others_end<V, W>(m: Meaning<V, W>, code: Seq<Instr>, pc: int, end: int, regs: Map<u16, V>, w: W)
    requires
        pc <= end,
        is_read(code[end]),
    ensures
        others_line(m, code, pc, end + 1, regs, w) == others_line(m, code, pc, end, regs, w),
    decreases end - pc,
{
    if pc < end {
        if is_read(code[pc]) {
            lemma_others_end(m, code, pc + 1, end, regs, w);
        } else {
            match (m.act)(code[pc], regs, w) {
                Turn::On(r, after) => lemma_others_end(m, code, pc + 1, end, r, after),
                _ => {},
            }
        }
    } else {
        reveal_with_fuel(others_line, 2);
    }
}

/// An instruction outside the clusters does what it did, and its jump lands where
/// its target went.
proof fn lemma_single_same<V, W>(
    m: Meaning<V, W>,
    code: Seq<Instr>,
    silent: Seq<bool>,
    groups: Seq<Seq<ReadOp>>,
    new: Seq<Instr>,
    all: Seq<Seq<ReadOp>>,
    i: int,
    p: int,
    regs: Map<u16, V>,
    w: W,
)
    requires
        faithful(m, silent),
        paired(code, silent, groups, new, all),
        boundary(code, silent, slots(code, silent), i, p),
        i < code.len(),
        !is_read(code[i]),
    ensures
        p < new.len(),
        issues(new[p], all) == issues(code[i], groups),
        (m.act)(new[p], regs, w) == (m.act)(code[i], regs, w),
        boundary(code, silent, slots(code, silent), i + 1, p + 1),
        match leap_of(code[i]) {
            Some(offset) => leap_of(new[p]) matches Some(f) && boundary(
                code,
                silent,
                slots(code, silent),
                i + 1 + offset,
                p + 1 + f,
            ),
            None => leap_of(new[p]) is None,
        },
{
    let s = slots(code, silent);
    lemma_next_boundary(code, silent, s, i, p);
    assert(s[p] == Slot::One(i));
    assert(new[p] == moved(s, p, i, code[i]));
    match leap_of(code[i]) {
        Some(offset) => {
            assert(ignores_distance(m, code[i]));
            let t = i + 1 + offset;
            assert(0 <= t <= code.len());
            if t < code.len() {
                assert(lands_at(code, i, t));
            }
            lemma_first_boundary(code, silent);
            lemma_target_is_boundary(code, silent, s, 0, 0, t);
            lemma_landing_range(s, t, 0);
            lemma_slots_len(code, silent, 0);
        },
        None => {},
    }
    match code[i] {
        Instr::ReadBatch { group_idx } => {
            assert(all[group_idx as int] == groups[group_idx as int]);
        },
        _ => {},
    }
}

/// A run of the old code that ends is matched by one of the new.
#[verifier::rlimit(60)]
proof fn lemma_old_to_new<V, W>(
    m: Meaning<V, W>,
    code: Seq<Instr>,
    silent: Seq<bool>,
    groups: Seq<Seq<ReadOp>>,
    new: Seq<Instr>,
    all: Seq<Seq<ReadOp>>,
    i: int,
    p: int,
    regs: Map<u16, V>,
    w: W,
    n: nat,
) -> (k: nat)
    requires
        faithful(m, silent),
        paired(code, silent, groups, new, all),
        boundary(code, silent, slots(code, silent), i, p),
        outcome(m, code, groups, i, regs, w, n) is Some,
    ensures
        outcome(m, new, all, p, regs, w, k) == outcome(m, code, groups, i, regs, w, n),
    decreases n,
{
    if is_read(code[i]) {
        let e = behind(code, silent, i);
        let q = p + width(code, silent, i);
        lemma_next_boundary(code, silent, slots(code, silent), i, p);
        lemma_cluster_same(m, code, silent, groups, new, all, i, p, regs, w);
        lemma_line_forth(m, code, groups, i, e, regs, w, n);
        match line(m, code, groups, i, e, regs, w) {
            Turn::On(r, after) => {
                let k = lemma_old_to_new(m, code, silent, groups, new, all, e, q, r, after, (n - (e - i)) as nat);
                lemma_line_back(m, new, all, p, q, regs, w, k);
                (k + (q - p)) as nat
            },
            _ => {
                lemma_line_back(m, new, all, p, q, regs, w, 0);
                (q - p) as nat
            },
        }
    } else {
        lemma_single_same(m, code, silent, groups, new, all, i, p, regs, w);
        let left = (n - 1) as nat;
        match issues(code[i], groups) {
            Some(ops) => {
                let r = filled(m, ops, regs, w);
                let k = lemma_old_to_new(m, code, silent, groups, new, all, i + 1, p + 1, r, w, left);
                k + 1
            },
            None => match (m.act)(code[i], regs, w) {
                Turn::On(r, after) => {
                    let k = lemma_old_to_new(m, code, silent, groups, new, all, i + 1, p + 1, r, after, left);
                    k + 1
                },
                Turn::Leap(r, after) => {
                    let t = i + 1 + leap_of(code[i])->0;
                    let q = p + 1 + leap_of(new[p])->0;
                    let k = lemma_old_to_new(m, code, silent, groups, new, all, t, q, r, after, left);
                    k + 1
                },
                Turn::Stop(_, _) => 1,
            },
        }
    }
}

/// A run of the new code that ends is matched by one of the old.
#[verifier::rlimit(60)]
proof fn lemma_new_to_old<V, W>(
    m: Meaning<V, W>,
    code: Seq<Instr>,
    silent: Seq<bool>,
    groups: Seq<Seq<ReadOp>>,
    new: Seq<Instr>,
    all: Seq<Seq<ReadOp>>,
    i: int,
    p: int,
    regs: Map<u16, V>,
    w: W,
    n: nat,
) -> (k: nat)
    requires
        faithful(m, silent),
        paired(code, silent, groups, new, all),
        boundary(code, silent, slots(code, silent), i, p),
        outcome(m, new, all, p, regs, w, n) is Some,
    ensures
        outcome(m, code, groups, i, regs, w, k) == outcome(m, new, all, p, regs, w, n),
    decreases n,
{
    if i == code.len() {
        assert(slots(code, silent).skip(p).len() == 0);
    }
    if is_read(code[i]) {
        let e = behind(code, silent, i);
        let q = p + width(code, silent, i);
        lemma_next_boundary(code, silent, slots(code, silent), i, p);
        lemma_cluster_same(m, code, silent, groups, new, all, i, p, regs, w);
        lemma_line_forth(m, new, all, p, q, regs, w, n);
        match line(m, code, groups, i, e, regs, w) {
            Turn::On(r, after) => {
                let k = lemma_new_to_old(m, code, silent, groups, new, all, e, q, r, after, (n - (q - p)) as nat);
                lemma_line_back(m, code, groups, i, e, regs, w, k);
                (k + (e - i)) as nat
            },
            _ => {
                lemma_line_back(m, code, groups, i, e, regs, w, 0);
                (e - i) as nat
            },
        }
    } else {
        lemma_single_same(m, code, silent, groups, new, all, i, p, regs, w);
        let left = (n - 1) as nat;
        match issues(code[i], groups) {
            Some(ops) => {
                let r = filled(m, ops, regs, w);
                let k = lemma_new_to_old(m, code, silent, groups, new, all, i + 1, p + 1, r, w, left);
                k + 1
            },
            None => match (m.act)(code[i], regs, w) {
                Turn::On(r, after) => {
                    let k = lemma_new_to_old(m, code, silent, groups, new, all, i + 1, p + 1, r, after, left);
                    k + 1
                },
                Turn::Leap(r, after) => {
                    let t = i + 1 + leap_of(code[i])->0;
                    let q = p + 1 + leap_of(new[p])->0;
                    let k = lemma_new_to_old(m, code, silent, groups, new, all, t, q, r, after, left);
                    k + 1
                },
                Turn::Stop(_, _) => 1,
            },
        }
    }
}

/// Optimizing keeps what code means: whatever the instructions do, as long as they
/// keep to the registers and the breaks that are said of them here, the optimized
/// code ends with a result and leaves a world behind exactly where the code did.
pub proof fn optimizing_keeps_the_meaning<V, W>(
    m: Meaning<V, W>,
    code: Seq<Instr>,
    silent: Seq<bool>,
    groups: Seq<Seq<ReadOp>>,
    regs: Map<u16, V>,
    w: W,
    x: (V, W),
)
    requires
        faithful(m, silent),
        code.len() <= i32::MAX,
        well_linked(code, groups.len()),
        groups.len() + added_groups(code, silent).len() <= 65536,
    ensures
        ends_with(
            m,
            optimized_code(code, silent, groups.len()),
            groups + added_groups(code, silent),
            regs,
            w,
            x,
        ) == ends_with(m, code, groups, regs, w, x),
{
    let new = optimized_code(code, silent, groups.len());
    let all = groups + added_groups(code, silent);
    lemma_first_boundary(code, silent);
    if ends_with(m, code, groups, regs, w, x) {
        let n = choose|n: nat| #[trigger] outcome(m, code, groups, 0, regs, w, n) == Some(x);
        let k = lemma_old_to_new(m, code, silent, groups, new, all, 0, 0, regs, w, n);
        assert(outcome(m, new, all, 0, regs, w, k) == Some(x));
    }
    if ends_with(m, new, all, regs, w, x) {
        let n = choose|n: nat| #[trigger] outcome(m, new, all, 0, regs, w, n) == Some(x);
        let k = lemma_new_to_old(m, code, silent, groups, new, all, 0, 0, regs, w, n);
        assert(outcome(m, code, groups, 0, regs, w, k) == Some(x));
    }
}

/// A read that moves back passes only instructions that neither end a cluster nor
/// have to do with the register that it fills, and no place that a jump lands on.
pub proof fn reads_pass_only_what_they_may(code: Seq<Instr>, silent: Seq<bool>, i: int, r: int, k: int)
    requires
        0 <= i <= r < k <= cluster_last(code, silent, i),
        i < code.len(),
        is_read(code[i]),
        is_read(code[r]),
    ensures
        !breaks(code[k], silent),
        !is_target(code, k),
        !touches(code[k], read_dst(code[r])),
{
    lemma_cluster(code, silent, i);
    assert(!ends(code, silent, i, k));
}

/// Whether every slot from `p` on holds the instruction at its own place.
spec fn in_place(s: Seq<Slot>, p: int, n: int) -> bool {
    s.len() == n - p && forall|q: int| 0 <= q < s.len() ==> #[trigger] s[q] == Slot::One(p + q)
}

/// Whether two instructions count alike for clustering.
spec fn alike(a: Instr, b: Instr, silent: Seq<bool>) -> bool {
    &&& is_read(a) == is_read(b)
    &&& is_read(a) ==> read_dst(a) == read_dst(b)
    &&& breaks(a, silent) == breaks(b, silent)
    &&& forall|r: u16| touches(a, r) == touches(b, r)
}

/// An instruction that moved counts for clustering as it did.
proof fn lemma_alike(s: Seq<Slot>, p: int, o: int, i: Instr, silent: Seq<bool>)
    ensures
        alike(moved(s, p, o, i), i, silent),
{
}

/// A batch holds reads, and at least two.
proof fn lemma_batch_reads(code: Seq<Instr>, silent: Seq<bool>, i: int, p: int)
    requires
        0 <= i <= code.len(),
        0 <= p < slots_from(code, silent, i).len(),
    ensures
        slots_from(code, silent, i)[p] matches Slot::Batch(ks) ==> forall|o: int|
            ks.contains(o) ==> #[trigger] is_read(code[o]),
    decreases code.len() - i,
{
    let s = slots_from(code, silent, i);
    if i < code.len() {
        lemma_unfold(code, silent, i);
        if is_read(code[i]) {
            let c = cluster_slots(code, silent, i);
            let last = cluster_last(code, silent, i);
            lemma_cluster(code, silent, i);
            lemma_cluster_holds(code, silent, i);
            if p < c.len() {
                assert(s[p] == c[p]);
                if let Slot::Batch(ks) = c[p] {
                    assert forall|o: int| ks.contains(o) implies #[trigger] is_read(code[o]) by {
                        assert(holds(c[p], o));
                    }
                }
            } else {
                assert(s[p] == slots_from(code, silent, last + 1)[p - c.len()]);
                lemma_batch_reads(code, silent, last + 1, p - c.len());
            }
        } else if p > 0 {
            assert(s[p] == slots_from(code, silent, i + 1)[p - 1]);
            lemma_batch_reads(code, silent, i + 1, p - 1);
        }
    }
}

/// Where a jump landed on a boundary, one still lands on it.
proof fn lemma_target_stays(code: Seq<Instr>, silent: Seq<bool>, groups: nat, e: int, q: int)
    requires
        code.len() <= i32::MAX,
        boundary(code, silent, slots(code, silent), e, q),
        e < code.len(),
        is_target(code, e),
    ensures
        is_target(optimized_code(code, silent, groups), q),
{
    let all = slots(code, silent);
    let new = optimized_code(code, silent, groups);
    let k = choose|k: int| 0 <= k < code.len() && #[trigger] lands_at(code, k, e);
    each_instruction_has_one_place(code, silent, k);
    let pk = choose|p: int| 0 <= p < all.len() && holds(#[trigger] all[p], k);
    lemma_batch_reads(code, silent, 0, pk);
    assert(all[pk] == Slot::One(k)) by {
        if let Slot::Batch(ks) = all[pk] {
            assert(ks.contains(k));
            assert(is_read(code[k]));
        }
    }
    assert(new[pk] == moved(all, pk, k, code[k]));
    lemma_lands(code, silent, all, e, q);
    lemma_slots_len(code, silent, 0);
    assert(lands_at(new, pk, q));
}

/// A stretch without reads keeps its places.
proof fn lemma_walk(code: Seq<Instr>, silent: Seq<bool>, all: Seq<Slot>, j: int, p: int, e: int)
    requires
        boundary(code, silent, all, j, p),
        j <= e <= code.len(),
        forall|k: int| j <= k < e ==> !is_read(#[trigger] code[k]),
    ensures
        boundary(code, silent, all, e, p + (e - j)),
        forall|d: int| 0 <= d < e - j ==> #[trigger] all[p + d] == Slot::One(j + d),
    decreases e - j,
{
    if j < e {
        lemma_next_boundary(code, silent, all, j, p);
        lemma_walk(code, silent, all, j + 1, p + 1, e);
        assert forall|d: int| 0 <= d < e - j implies #[trigger] all[p + d] == Slot::One(j + d) by {
            if d > 0 {
                assert(all[p + 1 + (d - 1)] == Slot::One(j + 1 + (d - 1)));
            }
        }
    }
}

/// A read is alone where something ends its cluster before any other read.
proof fn lemma_alone(code: Seq<Instr>, silent: Seq<bool>, p: int, stop: int)
    requires
        0 <= p < stop <= code.len(),
        is_read(code[p]),
        forall|k: int| p < k < stop ==> !is_read(#[trigger] code[k]),
        stop < code.len() ==> ends(code, silent, p, stop),
    ensures
        cluster_last(code, silent, p) == p,
{
    lemma_cluster_end(code, silent, p, p + 1);
    let e = cluster_end(code, silent, p, p + 1);
    if e > stop {
        assert(!ends(code, silent, p, stop));
    }
    lemma_last_read(code, p, e);
}

/// A lone read of the old code is a lone read of the new.
#[verifier::spinoff_prover]
#[verifier::rlimit(60)]
proof fn lemma_lone_stays(code: Seq<Instr>, silent: Seq<bool>, groups: nat, i: int, p: int)
    requires
        code.len() <= i32::MAX,
        boundary(code, silent, slots(code, silent), i, p),
        i < code.len(),
        is_read(code[i]),
        cluster_last(code, silent, i) == i,
    ensures
        p < optimized_code(code, silent, groups).len(),
        is_read(optimized_code(code, silent, groups)[p]),
        cluster_last(optimized_code(code, silent, groups), silent, p) == p,
        width(code, silent, i) == 1,
{
    let all = slots(code, silent);
    let new = optimized_code(code, silent, groups);
    let e = cluster_end(code, silent, i, i + 1);
    lemma_cluster_end(code, silent, i, i + 1);
    lemma_last_read(code, i, e);
    lemma_cluster_slot(code, silent, i);
    lemma_next_boundary(code, silent, all, i, p);
    let rs = reads_in(code, i, i + 1);
    assert(rs.len() == 1);
    assert(all[p + 0] == cluster_slots(code, silent, i)[0]);
    assert(all[p] == Slot::One(i));
    assert(new[p] == code[i]);
    lemma_walk(code, silent, all, i + 1, p + 1, e);
    let q = p + (e - i);
    assert forall|k: int| p < k < q implies !is_read(#[trigger] new[k]) by {
        assert(all[p + 1 + (k - p - 1)] == Slot::One(i + 1 + (k - p - 1)));
        let o = i + (k - p);
        assert(all[k] == Slot::One(o));
        lemma_alike(all, k, o, code[o], silent);
    }
    if e == code.len() {
        assert(all.skip(q).len() == 0);
        lemma_alone(new, silent, p, q);
    } else {
        assert(ends(code, silent, i, e));
        lemma_next_boundary(code, silent, all, e, q);
        if is_target(code, e) {
            lemma_target_stays(code, silent, groups, e, q);
            lemma_alone(new, silent, p, q);
        } else if !is_read(code[e]) {
            assert(all[q] == Slot::One(e));
            lemma_alike(all, q, e, code[e], silent);
            assert(new[q] == moved(all, q, e, code[e]));
            if touches_pending(code, i, e) {
                let k = choose|k: int|
                    i <= k < e && is_read(#[trigger] code[k]) && touches(code[e], read_dst(code[k]));
                assert(k == i);
                assert(is_read(new[p]) && touches(new[q], read_dst(new[p])));
                assert(touches_pending(new, p, q));
            }
            assert(ends(new, silent, p, q));
            lemma_alone(new, silent, p, q);
        } else {
            let k = choose|k: int|
                i <= k < e && is_read(#[trigger] code[k]) && touches(code[e], read_dst(code[k]));
            assert(k == i);
            let c = cluster_slots(code, silent, e);
            let stop = q + c.len() - 1;
            lemma_cluster(code, silent, e);
            lemma_cluster_slot(code, silent, e);
            lemma_cluster_holds(code, silent, e);
            assert forall|k: int| p < k < stop implies !is_read(#[trigger] new[k]) by {
                if k >= q {
                    assert(all[q + (k - q)] == c[k - q]);
                    assert(c[k - q] is One);
                    let o = reach(c[k - q]);
                    assert(holds(c[k - q], o));
                    lemma_alike(all, k, o, code[o], silent);
                }
            }
            assert(all[q + (c.len() - 1)] == c[c.len() - 1]);
            let last = cluster_last(code, silent, e);
            if reads_in(code, e, last + 1).len() == 1 {
                let os = others_in(code, e, last);
                assert(last == e) by {
                    if last > e {
                        lemma_lists_front(code, e, last + 1);
                        assert(reads_in(code, e, last + 1) == reads_in(code, e, last).push(last));
                        lemma_lists_front(code, e, last);
                    }
                }
                assert(reads_in(code, e, e + 1)[0] == e);
                assert(all[stop] == Slot::One(e));
                assert(new[stop] == code[e]);
                assert(is_read(new[p]) && touches(new[stop], read_dst(new[p])));
                assert(touches_pending(new, p, stop));
            } else {
                assert(new[stop] is ReadBatch);
            }
            assert(ends(new, silent, p, stop));
            lemma_alone(new, silent, p, stop);
        }
    }
}

/// Instructions that are no reads stay where they are, outside a cluster.
proof fn lemma_plain_run(code: Seq<Instr>, silent: Seq<bool>, p: int, e: int)
    requires
        0 <= p <= e <= code.len(),
        forall|q: int| p <= q < e ==> !is_read(#[trigger] code[q]),
        in_place(slots_from(code, silent, e), e, code.len() as int),
    ensures
        in_place(slots_from(code, silent, p), p, code.len() as int),
    decreases e - p,
{
    if p < e {
        lemma_plain_run(code, silent, p + 1, e);
        let t = slots_from(code, silent, p);
        let rest = slots_from(code, silent, p + 1);
        assert(t == seq![Slot::One(p)] + rest);
        assert forall|q: int| 0 <= q < t.len() implies #[trigger] t[q] == Slot::One(p + q) by {
            if q > 0 {
                assert(t[q] == rest[q - 1]);
            }
        }
    }
}

/// On optimized code from `p` on, which came from the old code from `i` on,
/// nothing moves.
#[verifier::spinoff_prover]
#[verifier::rlimit(60)]
proof fn lemma_stays(code: Seq<Instr>, silent: Seq<bool>, groups: nat, i: int, p: int)
    requires
        code.len() <= i32::MAX,
        boundary(code, silent, slots(code, silent), i, p),
    ensures
        in_place(
            slots_from(optimized_code(code, silent, groups), silent, p),
            p,
            optimized_code(code, silent, groups).len() as int,
        ),
    decreases code.len() - i,
{
    let all = slots(code, silent);
    let new = optimized_code(code, silent, groups);
    if i == code.len() {
        assert(all.skip(p).len() == 0);
    } else {
        lemma_next_boundary(code, silent, all, i, p);
        let e = p + width(code, silent, i);
        lemma_stays(code, silent, groups, behind(code, silent, i), e);
        if !is_read(code[i]) {
            lemma_alike(all, p, i, code[i], silent);
            assert(new[p] == moved(all, p, i, code[i]));
            lemma_plain_run(new, silent, p, e);
        } else if cluster_last(code, silent, i) == i {
            lemma_lone_stays(code, silent, groups, i, p);
            let t = slots_from(new, silent, p);
            let rest = slots_from(new, silent, p + 1);
            lemma_unfold(new, silent, p);
            lemma_counts(new, p, p + 1);
            assert(reads_in(new, p, p) =~= seq![]);
            assert(reads_in(new, p, p + 1) =~= seq![p]);
            assert(others_in(new, p, p) =~= seq![]);
            assert(cluster_slots(new, silent, p) =~= seq![Slot::One(p)]);
            assert(t == seq![Slot::One(p)] + rest);
            assert forall|q: int| 0 <= q < t.len() implies #[trigger] t[q] == Slot::One(p + q) by {
                if q > 0 {
                    assert(t[q] == rest[q - 1]);
                }
            }
        } else {
            let c = cluster_slots(code, silent, i);
            let last = cluster_last(code, silent, i);
            lemma_cluster(code, silent, i);
            lemma_cluster_holds(code, silent, i);
            lemma_cluster_slot(code, silent, i);
            lemma_lists_front(code, i, last + 1);
            assert(reads_in(code, i, last + 1) == reads_in(code, i, last).push(last));
            lemma_lists_front(code, i, last);
            assert forall|q: int| p <= q < e implies !is_read(#[trigger] new[q]) by {
                assert(all[p + (q - p)] == c[q - p]);
                if q < e - 1 {
                    assert(c[q - p] is One);
                    let o = reach(c[q - p]);
                    assert(holds(c[q - p], o));
                    lemma_alike(all, q, o, code[o], silent);
                } else {
                    assert(new[q] is ReadBatch);
                }
            }
            lemma_plain_run(new, silent, p, e);
        }
    }
}

/// A second optimization finds nothing to do: the code stays as it is, and no
/// read group is added.
pub proof fn optimizing_twice_changes_nothing(code: Seq<Instr>, silent: Seq<bool>, groups: nat, more: nat)
    requires
        code.len() <= i32::MAX,
    ensures
        optimized_code(optimized_code(code, silent, groups), silent, more) == optimized_code(
            code,
            silent,
            groups,
        ),
        added_groups(optimized_code(code, silent, groups), silent) == Seq::<Seq<ReadOp>>::empty(),
{
    let s = slots(code, silent);
    let new = optimized_code(code, silent, groups);
    lemma_slots_len(code, silent, 0);
    lemma_first_boundary(code, silent);
    lemma_stays(code, silent, groups, 0, 0);
    let t = slots(new, silent);
    assert(in_place(t, 0, new.len() as int));
    let again = optimized_code(new, silent, more);
    assert forall|p: int| 0 <= p < new.len() implies again[p] == new[p] by {
        assert(t[p] == Slot::One(0 + p));
        match s[p] {
            Slot::One(o) => {
                match leap_of(code[o]) {
                    Some(offset) => {
                        lemma_jump_stays(s, t, p, o, offset);
                    },
                    None => {},
                }
            },
            Slot::Batch(_) => {},
        }
    }
    assert(again =~= new);
    lemma_no_batches(new, t, t.len() as int);
}

proof fn lemma_jump_stays(s: Seq<Slot>, t: Seq<Slot>, p: int, o: int, offset: i32)
    requires
        s.len() == t.len() <= i32::MAX,
        in_place(t, 0, t.len() as int),
        0 <= p < s.len(),
    ensures
        new_offset(t, p, p, new_offset(s, p, o, offset)) == new_offset(s, p, o, offset),
{
    let target = o + 1 + offset;
    lemma_landing_range(s, target, 0);
    let l = landing(s, target);
    assert(0 <= l <= s.len());
    assert forall|q: int| 0 <= q < l implies reach(#[trigger] t[q]) < l by {
        assert(t[q] == Slot::One(0 + q));
    }
    if l < t.len() {
        assert(t[l] == Slot::One(0 + l));
    }
    lemma_landing_is(t, l, 0, l);
}

proof fn lemma_no_batches(code: Seq<Instr>, s: Seq<Slot>, p: int)
    requires
        0 <= p <= s.len(),
        forall|q: int| 0 <= q < s.len() ==> #[trigger] s[q] == Slot::One(0 + q),
    ensures
        groups_until(code, s, p) == Seq::<Seq<ReadOp>>::empty(),
    decreases p,
{
    if p > 0 {
        assert(s[p - 1] == Slot::One(0 + (p - 1)));
        lemma_no_batches(code, s, p - 1);
    }
}

} // verus!
