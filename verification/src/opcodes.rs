//! The operands of an instruction, and their wire layout.

use vstd::prelude::*;
use crate::ast::{BinOp, UnOp};
use crate::bc::Instr;

verus! {

/// One operand: a byte, a register or index, or a jump distance.
#[derive(Debug, Clone, Copy, PartialEq, Eq, Structural)]
pub enum Operand {
    Byte(u8),
    Word(u16),
    Dist(i32),
}

/// The kind of an operand.
#[derive(Debug, Clone, Copy, PartialEq, Eq, Structural)]
pub enum Kind {
    Byte,
    Word,
    Dist,
}

pub open spec fn kind_of(o: Operand) -> Kind {
    match o {
        Operand::Byte(_) => Kind::Byte,
        Operand::Word(_) => Kind::Word,
        Operand::Dist(_) => Kind::Dist,
    }
}

pub open spec fn kinds_of(s: Seq<Operand>) -> Seq<Kind> {
    Seq::new(s.len(), |i: int| kind_of(s[i]))
}

pub open spec fn binop_byte(op: BinOp) -> u8 {
    match op {
        BinOp::Add => 0x01,
        BinOp::Sub => 0x02,
        BinOp::Mul => 0x03,
        BinOp::Div => 0x04,
        BinOp::Mod => 0x05,
        BinOp::Eq => 0x06,
        BinOp::NotEq => 0x07,
        BinOp::Lt => 0x08,
        BinOp::Gt => 0x09,
        BinOp::LtEq => 0x0a,
        BinOp::GtEq => 0x0b,
        BinOp::And => 0x0c,
        BinOp::Or => 0x0d,
        BinOp::BitAnd => 0x0e,
        BinOp::BitOr => 0x0f,
        BinOp::BitXor => 0x10,
        BinOp::Shl => 0x11,
        BinOp::Shr => 0x12,
    }
}

pub open spec fn unop_byte(op: UnOp) -> u8 {
    match op {
        UnOp::Neg => 0x01,
        UnOp::Not => 0x02,
    }
}

pub fn binop_to_byte(op: BinOp) -> (r: u8)
    ensures
        r == binop_byte(op),
{
    match op {
        BinOp::Add => 0x01,
        BinOp::Sub => 0x02,
        BinOp::Mul => 0x03,
        BinOp::Div => 0x04,
        BinOp::Mod => 0x05,
        BinOp::Eq => 0x06,
        BinOp::NotEq => 0x07,
        BinOp::Lt => 0x08,
        BinOp::Gt => 0x09,
        BinOp::LtEq => 0x0a,
        BinOp::GtEq => 0x0b,
        BinOp::And => 0x0c,
        BinOp::Or => 0x0d,
        BinOp::BitAnd => 0x0e,
        BinOp::BitOr => 0x0f,
        BinOp::BitXor => 0x10,
        BinOp::Shl => 0x11,
        BinOp::Shr => 0x12,
    }
}

/// The operator with a given byte: the inverse of [`binop_byte`].
pub fn binop_from_byte(b: u8) -> (r: Option<BinOp>)
    ensures
        match r {
            Some(op) => binop_byte(op) == b,
            None => forall|op: BinOp| #[trigger] binop_byte(op) != b,
        },
{
    if b == 0x01 { Some(BinOp::Add) }
    else if b == 0x02 { Some(BinOp::Sub) }
    else if b == 0x03 { Some(BinOp::Mul) }
    else if b == 0x04 { Some(BinOp::Div) }
    else if b == 0x05 { Some(BinOp::Mod) }
    else if b == 0x06 { Some(BinOp::Eq) }
    else if b == 0x07 { Some(BinOp::NotEq) }
    else if b == 0x08 { Some(BinOp::Lt) }
    else if b == 0x09 { Some(BinOp::Gt) }
    else if b == 0x0a { Some(BinOp::LtEq) }
    else if b == 0x0b { Some(BinOp::GtEq) }
    else if b == 0x0c { Some(BinOp::And) }
    else if b == 0x0d { Some(BinOp::Or) }
    else if b == 0x0e { Some(BinOp::BitAnd) }
    else if b == 0x0f { Some(BinOp::BitOr) }
    else if b == 0x10 { Some(BinOp::BitXor) }
    else if b == 0x11 { Some(BinOp::Shl) }
    else if b == 0x12 { Some(BinOp::Shr) }
    else { None }
}

pub fn unop_to_byte(op: UnOp) -> (r: u8)
    ensures
        r == unop_byte(op),
{
    match op {
        UnOp::Neg => 0x01,
        UnOp::Not => 0x02,
    }
}

/// The operator with a given byte: the inverse of [`unop_byte`].
pub fn unop_from_byte(b: u8) -> (r: Option<UnOp>)
    ensures
        match r {
            Some(op) => unop_byte(op) == b,
            None => forall|op: UnOp| #[trigger] unop_byte(op) != b,
        },
{
    if b == 0x01 {
        Some(UnOp::Neg)
    } else if b == 0x02 {
        Some(UnOp::Not)
    } else {
        None
    }
}

/// The wire form of a flag.
pub open spec fn flag_byte(f: bool) -> u8 {
    if f {
        1
    } else {
        0
    }
}

/// The tag and the operands of an instruction, in wire order.
pub open spec fn operands(i: Instr) -> (u8, Seq<Operand>) {
    match i {
        Instr::LoadConst { dst, idx } => (0x01, seq![Operand::Word(dst), Operand::Word(idx)]),
        Instr::Move { dst, src } => (0x02, seq![Operand::Word(dst), Operand::Word(src)]),
        Instr::Bin { op, dst, lhs, rhs } => (0x03, seq![Operand::Byte(binop_byte(op)), Operand::Word(dst), Operand::Word(lhs), Operand::Word(rhs)]),
        Instr::Un { op, dst, src } => (0x04, seq![Operand::Byte(unop_byte(op)), Operand::Word(dst), Operand::Word(src)]),
        Instr::Jump { offset } => (0x05, seq![Operand::Dist(offset)]),
        Instr::JumpIfFalse { cond, offset } => (0x06, seq![Operand::Word(cond), Operand::Dist(offset)]),
        Instr::Call { dst, fn_idx, args_start, n_args } => (0x07, seq![Operand::Word(dst), Operand::Word(fn_idx), Operand::Word(args_start), Operand::Byte(n_args)]),
        Instr::CallHost { dst, import_idx, args_start, n_args } => (0x08, seq![Operand::Word(dst), Operand::Word(import_idx), Operand::Word(args_start), Operand::Byte(n_args)]),
        Instr::CallExternal { dst, module_name_idx, fn_name_idx, args_start, n_args, is_view, is_pure } => (0x09, seq![Operand::Word(dst), Operand::Word(module_name_idx), Operand::Word(fn_name_idx), Operand::Word(args_start), Operand::Byte(n_args), Operand::Byte(flag_byte(is_view)), Operand::Byte(flag_byte(is_pure))]),
        Instr::Return { src } => (0x0a, seq![Operand::Word(src)]),
        Instr::ReturnUnit => (0x0b, seq![]),
        Instr::BuiltinResource { dst, src } => (0x0c, seq![Operand::Word(dst), Operand::Word(src)]),
        Instr::BuiltinUnwrap { dst, src } => (0x0d, seq![Operand::Word(dst), Operand::Word(src)]),
        Instr::BuiltinAddress { dst, src } => (0x0e, seq![Operand::Word(dst), Operand::Word(src)]),
        Instr::BuiltinLen { dst, src } => (0x0f, seq![Operand::Word(dst), Operand::Word(src)]),
        Instr::Convert { dst, src, target } => (0x10, seq![Operand::Word(dst), Operand::Word(src), Operand::Byte(target)]),
        Instr::MakeArray { dst, args_start, n } => (0x11, seq![Operand::Word(dst), Operand::Word(args_start), Operand::Word(n)]),
        Instr::ArrayGet { dst, arr, idx } => (0x12, seq![Operand::Word(dst), Operand::Word(arr), Operand::Word(idx)]),
        Instr::ArrayAppend { dst, arr, elem } => (0x13, seq![Operand::Word(dst), Operand::Word(arr), Operand::Word(elem)]),
        Instr::MakeSet { dst, args_start, n } => (0x14, seq![Operand::Word(dst), Operand::Word(args_start), Operand::Word(n)]),
        Instr::MakeDict { dst, args_start, n_pairs } => (0x15, seq![Operand::Word(dst), Operand::Word(args_start), Operand::Word(n_pairs)]),
        Instr::BuiltinCall { dst, name_idx, args_start, n_args } => (0x16, seq![Operand::Word(dst), Operand::Word(name_idx), Operand::Word(args_start), Operand::Byte(n_args)]),
        Instr::MakeStruct { dst, shape_idx, args_start, n } => (0x17, seq![Operand::Word(dst), Operand::Word(shape_idx), Operand::Word(args_start), Operand::Word(n)]),
        Instr::FieldGet { dst, src, name_idx } => (0x18, seq![Operand::Word(dst), Operand::Word(src), Operand::Word(name_idx)]),
        Instr::FieldSet { dst, name_idx, val } => (0x19, seq![Operand::Word(dst), Operand::Word(name_idx), Operand::Word(val)]),
        Instr::KvGet { dst, key_idx } => (0x1a, seq![Operand::Word(dst), Operand::Word(key_idx)]),
        Instr::KvPut { src, key_idx } => (0x1b, seq![Operand::Word(src), Operand::Word(key_idx)]),
        Instr::KvGetPath { dst, path_idx } => (0x1c, seq![Operand::Word(dst), Operand::Word(path_idx)]),
        Instr::KvPutPath { src, path_idx } => (0x1d, seq![Operand::Word(src), Operand::Word(path_idx)]),
        Instr::ReadBatch { group_idx } => (0x1e, seq![Operand::Word(group_idx)]),
        Instr::PrefetchMap { arr_reg, state_idx } => (0x1f, seq![Operand::Word(arr_reg), Operand::Word(state_idx)]),
        Instr::Emit { value } => (0x20, seq![Operand::Word(value)]),
        Instr::Context { dst, kind } => (0x21, seq![Operand::Word(dst), Operand::Byte(kind)]),
        Instr::MakeTuple { dst, args_start, n } => (0x22, seq![Operand::Word(dst), Operand::Word(args_start), Operand::Word(n)]),
        Instr::TupleGet { dst, src, index } => (0x23, seq![Operand::Word(dst), Operand::Word(src), Operand::Word(index)]),
        Instr::MakeEnum { dst, shape_idx, variant_idx, args_start, n } => (0x24, seq![Operand::Word(dst), Operand::Word(shape_idx), Operand::Word(variant_idx), Operand::Word(args_start), Operand::Word(n)]),
        Instr::EnumTag { dst, src } => (0x25, seq![Operand::Word(dst), Operand::Word(src)]),
        Instr::EnumPayload { dst, src, index } => (0x26, seq![Operand::Word(dst), Operand::Word(src), Operand::Word(index)]),
        Instr::MapGet { dst, state_idx, key_reg } => (0x27, seq![Operand::Word(dst), Operand::Word(state_idx), Operand::Word(key_reg)]),
        Instr::MapPut { state_idx, key_reg, src } => (0x28, seq![Operand::Word(state_idx), Operand::Word(key_reg), Operand::Word(src)]),
        Instr::PMapGet { dst, state_idx, key_reg } => (0x29, seq![Operand::Word(dst), Operand::Word(state_idx), Operand::Word(key_reg)]),
        Instr::PMapPut { state_idx, key_reg, src } => (0x2a, seq![Operand::Word(state_idx), Operand::Word(key_reg), Operand::Word(src)]),
        Instr::PMapContains { dst, state_idx, key_reg } => (0x2b, seq![Operand::Word(dst), Operand::Word(state_idx), Operand::Word(key_reg)]),
        Instr::PVecGet { dst, state_idx, idx_reg } => (0x2c, seq![Operand::Word(dst), Operand::Word(state_idx), Operand::Word(idx_reg)]),
        Instr::PVecSet { state_idx, idx_reg, src } => (0x2d, seq![Operand::Word(state_idx), Operand::Word(idx_reg), Operand::Word(src)]),
        Instr::PVecPush { dst, state_idx, src } => (0x2e, seq![Operand::Word(dst), Operand::Word(state_idx), Operand::Word(src)]),
        Instr::PVecLen { dst, state_idx } => (0x2f, seq![Operand::Word(dst), Operand::Word(state_idx)]),
        Instr::IncReg { reg } => (0x30, seq![Operand::Word(reg)]),
        Instr::CallExternalDyn { dst, target_reg, fn_name_idx, args_start, n_args, is_view, is_pure } => (0x31, seq![Operand::Word(dst), Operand::Word(target_reg), Operand::Word(fn_name_idx), Operand::Word(args_start), Operand::Byte(n_args), Operand::Byte(flag_byte(is_view)), Operand::Byte(flag_byte(is_pure))]),
        Instr::MakeInterface { dst, iface_name_idx, target_reg } => (0x32, seq![Operand::Word(dst), Operand::Word(iface_name_idx), Operand::Word(target_reg)]),
        Instr::PMapEntries { dst, state_idx } => (0x33, seq![Operand::Word(dst), Operand::Word(state_idx)]),
        Instr::PMapKeys { dst, state_idx } => (0x34, seq![Operand::Word(dst), Operand::Word(state_idx)]),
        Instr::PMapValues { dst, state_idx } => (0x35, seq![Operand::Word(dst), Operand::Word(state_idx)]),
        Instr::PVecToArray { dst, state_idx } => (0x36, seq![Operand::Word(dst), Operand::Word(state_idx)]),
        Instr::PMapAppendUnique { state_idx, key_reg, elem_reg } => (0x37, seq![Operand::Word(state_idx), Operand::Word(key_reg), Operand::Word(elem_reg)]),
        Instr::PMapPutUnique { state_idx, key_reg, src } => (0x38, seq![Operand::Word(state_idx), Operand::Word(key_reg), Operand::Word(src)]),
        Instr::PMapWalkInit { dst, state_idx } => (0x39, seq![Operand::Word(dst), Operand::Word(state_idx)]),
        Instr::PMapWalkNext { cursor_reg, value_reg, end_offset } => (0x3a, seq![Operand::Word(cursor_reg), Operand::Word(value_reg), Operand::Dist(end_offset)]),
        Instr::PBTreeGet { dst, state_idx, key_reg } => (0x3b, seq![Operand::Word(dst), Operand::Word(state_idx), Operand::Word(key_reg)]),
        Instr::PBTreePut { state_idx, key_reg, src } => (0x3c, seq![Operand::Word(state_idx), Operand::Word(key_reg), Operand::Word(src)]),
        Instr::PBTreeContains { dst, state_idx, key_reg } => (0x3d, seq![Operand::Word(dst), Operand::Word(state_idx), Operand::Word(key_reg)]),
        Instr::PBTreeRange { dst, state_idx, lo_reg, hi_reg } => (0x3e, seq![Operand::Word(dst), Operand::Word(state_idx), Operand::Word(lo_reg), Operand::Word(hi_reg)]),
        Instr::PBTreeWalkInit { dst, state_idx } => (0x3f, seq![Operand::Word(dst), Operand::Word(state_idx)]),
        Instr::PBTreeWalkNext { cursor_reg, value_reg, end_offset } => (0x40, seq![Operand::Word(cursor_reg), Operand::Word(value_reg), Operand::Dist(end_offset)]),
        Instr::PBTreePutUnique { state_idx, key_reg, src } => (0x41, seq![Operand::Word(state_idx), Operand::Word(key_reg), Operand::Word(src)]),
        Instr::PBTreeAppendUnique { state_idx, key_reg, elem_reg } => (0x42, seq![Operand::Word(state_idx), Operand::Word(key_reg), Operand::Word(elem_reg)]),
        Instr::PMapDelete { state_idx, key_reg } => (0x43, seq![Operand::Word(state_idx), Operand::Word(key_reg)]),
        Instr::PBTreeDelete { state_idx, key_reg } => (0x44, seq![Operand::Word(state_idx), Operand::Word(key_reg)]),
        Instr::PMapRemoveUnique { state_idx, key_reg, expected_reg } => (0x45, seq![Operand::Word(state_idx), Operand::Word(key_reg), Operand::Word(expected_reg)]),
        Instr::PMapRemoveFromList { state_idx, key_reg, elem_reg } => (0x46, seq![Operand::Word(state_idx), Operand::Word(key_reg), Operand::Word(elem_reg)]),
        Instr::PBTreeRemoveUnique { state_idx, key_reg, expected_reg } => (0x47, seq![Operand::Word(state_idx), Operand::Word(key_reg), Operand::Word(expected_reg)]),
        Instr::PBTreeRemoveFromList { state_idx, key_reg, elem_reg } => (0x48, seq![Operand::Word(state_idx), Operand::Word(key_reg), Operand::Word(elem_reg)]),
    }
}

/// The operand kinds that a tag announces.
pub open spec fn layout(tag: u8) -> Option<Seq<Kind>> {
    if tag == 0x01 || tag == 0x02 || tag == 0x0c || tag == 0x0d || tag == 0x0e || tag == 0x0f || tag == 0x1a || tag == 0x1b || tag == 0x1c || tag == 0x1d || tag == 0x1f || tag == 0x25 || tag == 0x2f || tag == 0x33 || tag == 0x34 || tag == 0x35 || tag == 0x36 || tag == 0x39 || tag == 0x3f || tag == 0x43 || tag == 0x44 {
        Some(seq![Kind::Word, Kind::Word])
    } else if tag == 0x03 {
        Some(seq![Kind::Byte, Kind::Word, Kind::Word, Kind::Word])
    } else if tag == 0x04 {
        Some(seq![Kind::Byte, Kind::Word, Kind::Word])
    } else if tag == 0x05 {
        Some(seq![Kind::Dist])
    } else if tag == 0x06 {
        Some(seq![Kind::Word, Kind::Dist])
    } else if tag == 0x07 || tag == 0x08 || tag == 0x16 {
        Some(seq![Kind::Word, Kind::Word, Kind::Word, Kind::Byte])
    } else if tag == 0x09 || tag == 0x31 {
        Some(seq![Kind::Word, Kind::Word, Kind::Word, Kind::Word, Kind::Byte, Kind::Byte, Kind::Byte])
    } else if tag == 0x0a || tag == 0x1e || tag == 0x20 || tag == 0x30 {
        Some(seq![Kind::Word])
    } else if tag == 0x0b {
        Some(seq![])
    } else if tag == 0x10 {
        Some(seq![Kind::Word, Kind::Word, Kind::Byte])
    } else if tag == 0x11 || tag == 0x12 || tag == 0x13 || tag == 0x14 || tag == 0x15 || tag == 0x18 || tag == 0x19 || tag == 0x22 || tag == 0x23 || tag == 0x26 || tag == 0x27 || tag == 0x28 || tag == 0x29 || tag == 0x2a || tag == 0x2b || tag == 0x2c || tag == 0x2d || tag == 0x2e || tag == 0x32 || tag == 0x37 || tag == 0x38 || tag == 0x3b || tag == 0x3c || tag == 0x3d || tag == 0x41 || tag == 0x42 || tag == 0x45 || tag == 0x46 || tag == 0x47 || tag == 0x48 {
        Some(seq![Kind::Word, Kind::Word, Kind::Word])
    } else if tag == 0x17 || tag == 0x3e {
        Some(seq![Kind::Word, Kind::Word, Kind::Word, Kind::Word])
    } else if tag == 0x21 {
        Some(seq![Kind::Word, Kind::Byte])
    } else if tag == 0x24 {
        Some(seq![Kind::Word, Kind::Word, Kind::Word, Kind::Word, Kind::Word])
    } else if tag == 0x3a || tag == 0x40 {
        Some(seq![Kind::Word, Kind::Word, Kind::Dist])
    } else {
        None
    }
}

/// The instruction with a tag and operands, if the operator byte is known.
pub open spec fn built(tag: u8, s: Seq<Operand>) -> Option<Instr> {
    if exists|i: Instr| #[trigger] operands(i) == (tag, canonical(tag, s)) {
        Some(choose|i: Instr| #[trigger] operands(i) == (tag, canonical(tag, s)))
    } else {
        None
    }
}

/// The operands with each flag byte other than zero taken for a set flag.
pub open spec fn canonical(tag: u8, s: Seq<Operand>) -> Seq<Operand> {
    if tag == 0x09 || tag == 0x31 {
        s.update(5, canonical_flag(s[5])).update(6, canonical_flag(s[6]))
    } else {
        s
    }
}

pub open spec fn canonical_flag(o: Operand) -> Operand {
    match o {
        Operand::Byte(b) => Operand::Byte(flag_byte(b != 0)),
        _ => o,
    }
}

/// The tag and the operands of an instruction.
#[verifier::rlimit(30)]
pub fn to_operands(i: &Instr) -> (r: (u8, Vec<Operand>))
    ensures
        (r.0, r.1@) == operands(*i),
{
    let r: (u8, Vec<Operand>) = match i {
        Instr::LoadConst { dst, idx } => (0x01, vec![Operand::Word(*dst), Operand::Word(*idx)]),
        Instr::Move { dst, src } => (0x02, vec![Operand::Word(*dst), Operand::Word(*src)]),
        Instr::Bin { op, dst, lhs, rhs } => (0x03, vec![Operand::Byte(binop_to_byte(*op)), Operand::Word(*dst), Operand::Word(*lhs), Operand::Word(*rhs)]),
        Instr::Un { op, dst, src } => (0x04, vec![Operand::Byte(unop_to_byte(*op)), Operand::Word(*dst), Operand::Word(*src)]),
        Instr::Jump { offset } => (0x05, vec![Operand::Dist(*offset)]),
        Instr::JumpIfFalse { cond, offset } => (0x06, vec![Operand::Word(*cond), Operand::Dist(*offset)]),
        Instr::Call { dst, fn_idx, args_start, n_args } => (0x07, vec![Operand::Word(*dst), Operand::Word(*fn_idx), Operand::Word(*args_start), Operand::Byte(*n_args)]),
        Instr::CallHost { dst, import_idx, args_start, n_args } => (0x08, vec![Operand::Word(*dst), Operand::Word(*import_idx), Operand::Word(*args_start), Operand::Byte(*n_args)]),
        Instr::CallExternal { dst, module_name_idx, fn_name_idx, args_start, n_args, is_view, is_pure } => (0x09, vec![Operand::Word(*dst), Operand::Word(*module_name_idx), Operand::Word(*fn_name_idx), Operand::Word(*args_start), Operand::Byte(*n_args), Operand::Byte(if *is_view { 1 } else { 0 }), Operand::Byte(if *is_pure { 1 } else { 0 })]),
        Instr::Return { src } => (0x0a, vec![Operand::Word(*src)]),
        Instr::ReturnUnit => (0x0b, vec![]),
        Instr::BuiltinResource { dst, src } => (0x0c, vec![Operand::Word(*dst), Operand::Word(*src)]),
        Instr::BuiltinUnwrap { dst, src } => (0x0d, vec![Operand::Word(*dst), Operand::Word(*src)]),
        Instr::BuiltinAddress { dst, src } => (0x0e, vec![Operand::Word(*dst), Operand::Word(*src)]),
        Instr::BuiltinLen { dst, src } => (0x0f, vec![Operand::Word(*dst), Operand::Word(*src)]),
        Instr::Convert { dst, src, target } => (0x10, vec![Operand::Word(*dst), Operand::Word(*src), Operand::Byte(*target)]),
        Instr::MakeArray { dst, args_start, n } => (0x11, vec![Operand::Word(*dst), Operand::Word(*args_start), Operand::Word(*n)]),
        Instr::ArrayGet { dst, arr, idx } => (0x12, vec![Operand::Word(*dst), Operand::Word(*arr), Operand::Word(*idx)]),
        Instr::ArrayAppend { dst, arr, elem } => (0x13, vec![Operand::Word(*dst), Operand::Word(*arr), Operand::Word(*elem)]),
        Instr::MakeSet { dst, args_start, n } => (0x14, vec![Operand::Word(*dst), Operand::Word(*args_start), Operand::Word(*n)]),
        Instr::MakeDict { dst, args_start, n_pairs } => (0x15, vec![Operand::Word(*dst), Operand::Word(*args_start), Operand::Word(*n_pairs)]),
        Instr::BuiltinCall { dst, name_idx, args_start, n_args } => (0x16, vec![Operand::Word(*dst), Operand::Word(*name_idx), Operand::Word(*args_start), Operand::Byte(*n_args)]),
        Instr::MakeStruct { dst, shape_idx, args_start, n } => (0x17, vec![Operand::Word(*dst), Operand::Word(*shape_idx), Operand::Word(*args_start), Operand::Word(*n)]),
        Instr::FieldGet { dst, src, name_idx } => (0x18, vec![Operand::Word(*dst), Operand::Word(*src), Operand::Word(*name_idx)]),
        Instr::FieldSet { dst, name_idx, val } => (0x19, vec![Operand::Word(*dst), Operand::Word(*name_idx), Operand::Word(*val)]),
        Instr::KvGet { dst, key_idx } => (0x1a, vec![Operand::Word(*dst), Operand::Word(*key_idx)]),
        Instr::KvPut { src, key_idx } => (0x1b, vec![Operand::Word(*src), Operand::Word(*key_idx)]),
        Instr::KvGetPath { dst, path_idx } => (0x1c, vec![Operand::Word(*dst), Operand::Word(*path_idx)]),
        Instr::KvPutPath { src, path_idx } => (0x1d, vec![Operand::Word(*src), Operand::Word(*path_idx)]),
        Instr::ReadBatch { group_idx } => (0x1e, vec![Operand::Word(*group_idx)]),
        Instr::PrefetchMap { arr_reg, state_idx } => (0x1f, vec![Operand::Word(*arr_reg), Operand::Word(*state_idx)]),
        Instr::Emit { value } => (0x20, vec![Operand::Word(*value)]),
        Instr::Context { dst, kind } => (0x21, vec![Operand::Word(*dst), Operand::Byte(*kind)]),
        Instr::MakeTuple { dst, args_start, n } => (0x22, vec![Operand::Word(*dst), Operand::Word(*args_start), Operand::Word(*n)]),
        Instr::TupleGet { dst, src, index } => (0x23, vec![Operand::Word(*dst), Operand::Word(*src), Operand::Word(*index)]),
        Instr::MakeEnum { dst, shape_idx, variant_idx, args_start, n } => (0x24, vec![Operand::Word(*dst), Operand::Word(*shape_idx), Operand::Word(*variant_idx), Operand::Word(*args_start), Operand::Word(*n)]),
        Instr::EnumTag { dst, src } => (0x25, vec![Operand::Word(*dst), Operand::Word(*src)]),
        Instr::EnumPayload { dst, src, index } => (0x26, vec![Operand::Word(*dst), Operand::Word(*src), Operand::Word(*index)]),
        Instr::MapGet { dst, state_idx, key_reg } => (0x27, vec![Operand::Word(*dst), Operand::Word(*state_idx), Operand::Word(*key_reg)]),
        Instr::MapPut { state_idx, key_reg, src } => (0x28, vec![Operand::Word(*state_idx), Operand::Word(*key_reg), Operand::Word(*src)]),
        Instr::PMapGet { dst, state_idx, key_reg } => (0x29, vec![Operand::Word(*dst), Operand::Word(*state_idx), Operand::Word(*key_reg)]),
        Instr::PMapPut { state_idx, key_reg, src } => (0x2a, vec![Operand::Word(*state_idx), Operand::Word(*key_reg), Operand::Word(*src)]),
        Instr::PMapContains { dst, state_idx, key_reg } => (0x2b, vec![Operand::Word(*dst), Operand::Word(*state_idx), Operand::Word(*key_reg)]),
        Instr::PVecGet { dst, state_idx, idx_reg } => (0x2c, vec![Operand::Word(*dst), Operand::Word(*state_idx), Operand::Word(*idx_reg)]),
        Instr::PVecSet { state_idx, idx_reg, src } => (0x2d, vec![Operand::Word(*state_idx), Operand::Word(*idx_reg), Operand::Word(*src)]),
        Instr::PVecPush { dst, state_idx, src } => (0x2e, vec![Operand::Word(*dst), Operand::Word(*state_idx), Operand::Word(*src)]),
        Instr::PVecLen { dst, state_idx } => (0x2f, vec![Operand::Word(*dst), Operand::Word(*state_idx)]),
        Instr::IncReg { reg } => (0x30, vec![Operand::Word(*reg)]),
        Instr::CallExternalDyn { dst, target_reg, fn_name_idx, args_start, n_args, is_view, is_pure } => (0x31, vec![Operand::Word(*dst), Operand::Word(*target_reg), Operand::Word(*fn_name_idx), Operand::Word(*args_start), Operand::Byte(*n_args), Operand::Byte(if *is_view { 1 } else { 0 }), Operand::Byte(if *is_pure { 1 } else { 0 })]),
        Instr::MakeInterface { dst, iface_name_idx, target_reg } => (0x32, vec![Operand::Word(*dst), Operand::Word(*iface_name_idx), Operand::Word(*target_reg)]),
        Instr::PMapEntries { dst, state_idx } => (0x33, vec![Operand::Word(*dst), Operand::Word(*state_idx)]),
        Instr::PMapKeys { dst, state_idx } => (0x34, vec![Operand::Word(*dst), Operand::Word(*state_idx)]),
        Instr::PMapValues { dst, state_idx } => (0x35, vec![Operand::Word(*dst), Operand::Word(*state_idx)]),
        Instr::PVecToArray { dst, state_idx } => (0x36, vec![Operand::Word(*dst), Operand::Word(*state_idx)]),
        Instr::PMapAppendUnique { state_idx, key_reg, elem_reg } => (0x37, vec![Operand::Word(*state_idx), Operand::Word(*key_reg), Operand::Word(*elem_reg)]),
        Instr::PMapPutUnique { state_idx, key_reg, src } => (0x38, vec![Operand::Word(*state_idx), Operand::Word(*key_reg), Operand::Word(*src)]),
        Instr::PMapWalkInit { dst, state_idx } => (0x39, vec![Operand::Word(*dst), Operand::Word(*state_idx)]),
        Instr::PMapWalkNext { cursor_reg, value_reg, end_offset } => (0x3a, vec![Operand::Word(*cursor_reg), Operand::Word(*value_reg), Operand::Dist(*end_offset)]),
        Instr::PBTreeGet { dst, state_idx, key_reg } => (0x3b, vec![Operand::Word(*dst), Operand::Word(*state_idx), Operand::Word(*key_reg)]),
        Instr::PBTreePut { state_idx, key_reg, src } => (0x3c, vec![Operand::Word(*state_idx), Operand::Word(*key_reg), Operand::Word(*src)]),
        Instr::PBTreeContains { dst, state_idx, key_reg } => (0x3d, vec![Operand::Word(*dst), Operand::Word(*state_idx), Operand::Word(*key_reg)]),
        Instr::PBTreeRange { dst, state_idx, lo_reg, hi_reg } => (0x3e, vec![Operand::Word(*dst), Operand::Word(*state_idx), Operand::Word(*lo_reg), Operand::Word(*hi_reg)]),
        Instr::PBTreeWalkInit { dst, state_idx } => (0x3f, vec![Operand::Word(*dst), Operand::Word(*state_idx)]),
        Instr::PBTreeWalkNext { cursor_reg, value_reg, end_offset } => (0x40, vec![Operand::Word(*cursor_reg), Operand::Word(*value_reg), Operand::Dist(*end_offset)]),
        Instr::PBTreePutUnique { state_idx, key_reg, src } => (0x41, vec![Operand::Word(*state_idx), Operand::Word(*key_reg), Operand::Word(*src)]),
        Instr::PBTreeAppendUnique { state_idx, key_reg, elem_reg } => (0x42, vec![Operand::Word(*state_idx), Operand::Word(*key_reg), Operand::Word(*elem_reg)]),
        Instr::PMapDelete { state_idx, key_reg } => (0x43, vec![Operand::Word(*state_idx), Operand::Word(*key_reg)]),
        Instr::PBTreeDelete { state_idx, key_reg } => (0x44, vec![Operand::Word(*state_idx), Operand::Word(*key_reg)]),
        Instr::PMapRemoveUnique { state_idx, key_reg, expected_reg } => (0x45, vec![Operand::Word(*state_idx), Operand::Word(*key_reg), Operand::Word(*expected_reg)]),
        Instr::PMapRemoveFromList { state_idx, key_reg, elem_reg } => (0x46, vec![Operand::Word(*state_idx), Operand::Word(*key_reg), Operand::Word(*elem_reg)]),
        Instr::PBTreeRemoveUnique { state_idx, key_reg, expected_reg } => (0x47, vec![Operand::Word(*state_idx), Operand::Word(*key_reg), Operand::Word(*expected_reg)]),
        Instr::PBTreeRemoveFromList { state_idx, key_reg, elem_reg } => (0x48, vec![Operand::Word(*state_idx), Operand::Word(*key_reg), Operand::Word(*elem_reg)]),
    };
    assert(r.1@ =~= operands(*i).1);
    r
}

/// The operand kinds that a tag announces.
#[verifier::rlimit(30)]
pub fn layout_of(tag: u8) -> (r: Option<Vec<Kind>>)
    ensures
        match r {
            Some(v) => layout(tag) == Some(v@),
            None => layout(tag) is None,
        },
{
    if tag == 0x01 || tag == 0x02 || tag == 0x0c || tag == 0x0d || tag == 0x0e || tag == 0x0f || tag == 0x1a || tag == 0x1b || tag == 0x1c || tag == 0x1d || tag == 0x1f || tag == 0x25 || tag == 0x2f || tag == 0x33 || tag == 0x34 || tag == 0x35 || tag == 0x36 || tag == 0x39 || tag == 0x3f || tag == 0x43 || tag == 0x44 {
        let v: Vec<Kind> = vec![Kind::Word, Kind::Word];
        assert(v@ =~= layout(tag)->0);
        Some(v)
    } else if tag == 0x03 {
        let v: Vec<Kind> = vec![Kind::Byte, Kind::Word, Kind::Word, Kind::Word];
        assert(v@ =~= layout(tag)->0);
        Some(v)
    } else if tag == 0x04 {
        let v: Vec<Kind> = vec![Kind::Byte, Kind::Word, Kind::Word];
        assert(v@ =~= layout(tag)->0);
        Some(v)
    } else if tag == 0x05 {
        let v: Vec<Kind> = vec![Kind::Dist];
        assert(v@ =~= layout(tag)->0);
        Some(v)
    } else if tag == 0x06 {
        let v: Vec<Kind> = vec![Kind::Word, Kind::Dist];
        assert(v@ =~= layout(tag)->0);
        Some(v)
    } else if tag == 0x07 || tag == 0x08 || tag == 0x16 {
        let v: Vec<Kind> = vec![Kind::Word, Kind::Word, Kind::Word, Kind::Byte];
        assert(v@ =~= layout(tag)->0);
        Some(v)
    } else if tag == 0x09 || tag == 0x31 {
        let v: Vec<Kind> = vec![Kind::Word, Kind::Word, Kind::Word, Kind::Word, Kind::Byte, Kind::Byte, Kind::Byte];
        assert(v@ =~= layout(tag)->0);
        Some(v)
    } else if tag == 0x0a || tag == 0x1e || tag == 0x20 || tag == 0x30 {
        let v: Vec<Kind> = vec![Kind::Word];
        assert(v@ =~= layout(tag)->0);
        Some(v)
    } else if tag == 0x0b {
        let v: Vec<Kind> = vec![];
        assert(v@ =~= layout(tag)->0);
        Some(v)
    } else if tag == 0x10 {
        let v: Vec<Kind> = vec![Kind::Word, Kind::Word, Kind::Byte];
        assert(v@ =~= layout(tag)->0);
        Some(v)
    } else if tag == 0x11 || tag == 0x12 || tag == 0x13 || tag == 0x14 || tag == 0x15 || tag == 0x18 || tag == 0x19 || tag == 0x22 || tag == 0x23 || tag == 0x26 || tag == 0x27 || tag == 0x28 || tag == 0x29 || tag == 0x2a || tag == 0x2b || tag == 0x2c || tag == 0x2d || tag == 0x2e || tag == 0x32 || tag == 0x37 || tag == 0x38 || tag == 0x3b || tag == 0x3c || tag == 0x3d || tag == 0x41 || tag == 0x42 || tag == 0x45 || tag == 0x46 || tag == 0x47 || tag == 0x48 {
        let v: Vec<Kind> = vec![Kind::Word, Kind::Word, Kind::Word];
        assert(v@ =~= layout(tag)->0);
        Some(v)
    } else if tag == 0x17 || tag == 0x3e {
        let v: Vec<Kind> = vec![Kind::Word, Kind::Word, Kind::Word, Kind::Word];
        assert(v@ =~= layout(tag)->0);
        Some(v)
    } else if tag == 0x21 {
        let v: Vec<Kind> = vec![Kind::Word, Kind::Byte];
        assert(v@ =~= layout(tag)->0);
        Some(v)
    } else if tag == 0x24 {
        let v: Vec<Kind> = vec![Kind::Word, Kind::Word, Kind::Word, Kind::Word, Kind::Word];
        assert(v@ =~= layout(tag)->0);
        Some(v)
    } else if tag == 0x3a || tag == 0x40 {
        let v: Vec<Kind> = vec![Kind::Word, Kind::Word, Kind::Dist];
        assert(v@ =~= layout(tag)->0);
        Some(v)
    } else {
        None
    }
}

/// Two instructions with the same tag and operands are the same.
#[verifier::spinoff_prover]
#[verifier::rlimit(60)]
pub proof fn lemma_operands_injective(i: Instr, j: Instr)
    requires
        operands(i) == operands(j),
    ensures
        i == j,
{
    let a = operands(i).1;
    let b = operands(j).1;
    assert(a.len() == b.len());
    assert(a.len() > 0 ==> a[0] == b[0]);
    assert(a.len() > 1 ==> a[1] == b[1]);
    assert(a.len() > 2 ==> a[2] == b[2]);
    assert(a.len() > 3 ==> a[3] == b[3]);
    assert(a.len() > 4 ==> a[4] == b[4]);
    assert(a.len() > 5 ==> a[5] == b[5]);
    assert(a.len() > 6 ==> a[6] == b[6]);
}

fn word(v: &Vec<Operand>, k: usize) -> (r: u16)
    requires
        k < v@.len(),
        kinds_of(v@)[k as int] == Kind::Word,
    ensures
        v@[k as int] == Operand::Word(r),
{
    match v[k] {
        Operand::Word(w) => w,
        _ => 0,
    }
}

fn byte(v: &Vec<Operand>, k: usize) -> (r: u8)
    requires
        k < v@.len(),
        kinds_of(v@)[k as int] == Kind::Byte,
    ensures
        v@[k as int] == Operand::Byte(r),
{
    match v[k] {
        Operand::Byte(w) => w,
        _ => 0,
    }
}

fn dist(v: &Vec<Operand>, k: usize) -> (r: i32)
    requires
        k < v@.len(),
        kinds_of(v@)[k as int] == Kind::Dist,
    ensures
        v@[k as int] == Operand::Dist(r),
{
    match v[k] {
        Operand::Dist(w) => w,
        _ => 0,
    }
}

/// Whether the operator byte of an operator instruction is known.
pub open spec fn operator_known(tag: u8, b: u8) -> bool {
    &&& tag == 0x03 ==> exists|op: BinOp| #[trigger] binop_byte(op) == b
    &&& tag == 0x04 ==> exists|op: UnOp| #[trigger] unop_byte(op) == b
}

/// The instruction with the given tag and operands.
#[verifier::spinoff_prover]
#[verifier::rlimit(100)]
pub fn from_operands(tag: u8, v: &Vec<Operand>) -> (r: Instr)
    requires
        layout(tag) == Some(kinds_of(v@)),
        tag == 0x03 || tag == 0x04 ==> (v@[0] matches Operand::Byte(b) && operator_known(tag, b)),
    ensures
        operands(r) == (tag, canonical(tag, v@)),
{
    assert(kinds_of(v@).len() == v@.len());
    let r: Instr = if tag == 0x01 {
        Instr::LoadConst { dst: word(v, 0), idx: word(v, 1) }
    } else if tag == 0x02 {
        Instr::Move { dst: word(v, 0), src: word(v, 1) }
    } else if tag == 0x03 {
        let op = match binop_from_byte(byte(v, 0)) { Some(o) => o, None => BinOp::Add };
        Instr::Bin { op, dst: word(v, 1), lhs: word(v, 2), rhs: word(v, 3) }
    } else if tag == 0x04 {
        let op = match unop_from_byte(byte(v, 0)) { Some(o) => o, None => UnOp::Neg };
        Instr::Un { op, dst: word(v, 1), src: word(v, 2) }
    } else if tag == 0x05 {
        Instr::Jump { offset: dist(v, 0) }
    } else if tag == 0x06 {
        Instr::JumpIfFalse { cond: word(v, 0), offset: dist(v, 1) }
    } else if tag == 0x07 {
        Instr::Call { dst: word(v, 0), fn_idx: word(v, 1), args_start: word(v, 2), n_args: byte(v, 3) }
    } else if tag == 0x08 {
        Instr::CallHost {
            dst: word(v, 0),
            import_idx: word(v, 1),
            args_start: word(v, 2),
            n_args: byte(v, 3),
        }
    } else if tag == 0x09 {
        Instr::CallExternal {
            dst: word(v, 0),
            module_name_idx: word(v, 1),
            fn_name_idx: word(v, 2),
            args_start: word(v, 3),
            n_args: byte(v, 4),
            is_view: byte(v, 5) != 0,
            is_pure: byte(v, 6) != 0,
        }
    } else if tag == 0x0a {
        Instr::Return { src: word(v, 0) }
    } else if tag == 0x0b {
        Instr::ReturnUnit
    } else if tag == 0x0c {
        Instr::BuiltinResource { dst: word(v, 0), src: word(v, 1) }
    } else if tag == 0x0d {
        Instr::BuiltinUnwrap { dst: word(v, 0), src: word(v, 1) }
    } else if tag == 0x0e {
        Instr::BuiltinAddress { dst: word(v, 0), src: word(v, 1) }
    } else if tag == 0x0f {
        Instr::BuiltinLen { dst: word(v, 0), src: word(v, 1) }
    } else if tag == 0x10 {
        Instr::Convert { dst: word(v, 0), src: word(v, 1), target: byte(v, 2) }
    } else if tag == 0x11 {
        Instr::MakeArray { dst: word(v, 0), args_start: word(v, 1), n: word(v, 2) }
    } else if tag == 0x12 {
        Instr::ArrayGet { dst: word(v, 0), arr: word(v, 1), idx: word(v, 2) }
    } else if tag == 0x13 {
        Instr::ArrayAppend { dst: word(v, 0), arr: word(v, 1), elem: word(v, 2) }
    } else if tag == 0x14 {
        Instr::MakeSet { dst: word(v, 0), args_start: word(v, 1), n: word(v, 2) }
    } else if tag == 0x15 {
        Instr::MakeDict { dst: word(v, 0), args_start: word(v, 1), n_pairs: word(v, 2) }
    } else if tag == 0x16 {
        Instr::BuiltinCall {
            dst: word(v, 0),
            name_idx: word(v, 1),
            args_start: word(v, 2),
            n_args: byte(v, 3),
        }
    } else if tag == 0x17 {
        Instr::MakeStruct { dst: word(v, 0), shape_idx: word(v, 1), args_start: word(v, 2), n: word(v, 3) }
    } else if tag == 0x18 {
        Instr::FieldGet { dst: word(v, 0), src: word(v, 1), name_idx: word(v, 2) }
    } else if tag == 0x19 {
        Instr::FieldSet { dst: word(v, 0), name_idx: word(v, 1), val: word(v, 2) }
    } else if tag == 0x1a {
        Instr::KvGet { dst: word(v, 0), key_idx: word(v, 1) }
    } else if tag == 0x1b {
        Instr::KvPut { src: word(v, 0), key_idx: word(v, 1) }
    } else if tag == 0x1c {
        Instr::KvGetPath { dst: word(v, 0), path_idx: word(v, 1) }
    } else if tag == 0x1d {
        Instr::KvPutPath { src: word(v, 0), path_idx: word(v, 1) }
    } else if tag == 0x1e {
        Instr::ReadBatch { group_idx: word(v, 0) }
    } else if tag == 0x1f {
        Instr::PrefetchMap { arr_reg: word(v, 0), state_idx: word(v, 1) }
    } else if tag == 0x20 {
        Instr::Emit { value: word(v, 0) }
    } else if tag == 0x21 {
        Instr::Context { dst: word(v, 0), kind: byte(v, 1) }
    } else if tag == 0x22 {
        Instr::MakeTuple { dst: word(v, 0), args_start: word(v, 1), n: word(v, 2) }
    } else if tag == 0x23 {
        Instr::TupleGet { dst: word(v, 0), src: word(v, 1), index: word(v, 2) }
    } else if tag == 0x24 {
        Instr::MakeEnum {
            dst: word(v, 0),
            shape_idx: word(v, 1),
            variant_idx: word(v, 2),
            args_start: word(v, 3),
            n: word(v, 4),
        }
    } else if tag == 0x25 {
        Instr::EnumTag { dst: word(v, 0), src: word(v, 1) }
    } else if tag == 0x26 {
        Instr::EnumPayload { dst: word(v, 0), src: word(v, 1), index: word(v, 2) }
    } else if tag == 0x27 {
        Instr::MapGet { dst: word(v, 0), state_idx: word(v, 1), key_reg: word(v, 2) }
    } else if tag == 0x28 {
        Instr::MapPut { state_idx: word(v, 0), key_reg: word(v, 1), src: word(v, 2) }
    } else if tag == 0x29 {
        Instr::PMapGet { dst: word(v, 0), state_idx: word(v, 1), key_reg: word(v, 2) }
    } else if tag == 0x2a {
        Instr::PMapPut { state_idx: word(v, 0), key_reg: word(v, 1), src: word(v, 2) }
    } else if tag == 0x2b {
        Instr::PMapContains { dst: word(v, 0), state_idx: word(v, 1), key_reg: word(v, 2) }
    } else if tag == 0x2c {
        Instr::PVecGet { dst: word(v, 0), state_idx: word(v, 1), idx_reg: word(v, 2) }
    } else if tag == 0x2d {
        Instr::PVecSet { state_idx: word(v, 0), idx_reg: word(v, 1), src: word(v, 2) }
    } else if tag == 0x2e {
        Instr::PVecPush { dst: word(v, 0), state_idx: word(v, 1), src: word(v, 2) }
    } else if tag == 0x2f {
        Instr::PVecLen { dst: word(v, 0), state_idx: word(v, 1) }
    } else if tag == 0x30 {
        Instr::IncReg { reg: word(v, 0) }
    } else if tag == 0x31 {
        Instr::CallExternalDyn {
            dst: word(v, 0),
            target_reg: word(v, 1),
            fn_name_idx: word(v, 2),
            args_start: word(v, 3),
            n_args: byte(v, 4),
            is_view: byte(v, 5) != 0,
            is_pure: byte(v, 6) != 0,
        }
    } else if tag == 0x32 {
        Instr::MakeInterface { dst: word(v, 0), iface_name_idx: word(v, 1), target_reg: word(v, 2) }
    } else if tag == 0x33 {
        Instr::PMapEntries { dst: word(v, 0), state_idx: word(v, 1) }
    } else if tag == 0x34 {
        Instr::PMapKeys { dst: word(v, 0), state_idx: word(v, 1) }
    } else if tag == 0x35 {
        Instr::PMapValues { dst: word(v, 0), state_idx: word(v, 1) }
    } else if tag == 0x36 {
        Instr::PVecToArray { dst: word(v, 0), state_idx: word(v, 1) }
    } else if tag == 0x37 {
        Instr::PMapAppendUnique { state_idx: word(v, 0), key_reg: word(v, 1), elem_reg: word(v, 2) }
    } else if tag == 0x38 {
        Instr::PMapPutUnique { state_idx: word(v, 0), key_reg: word(v, 1), src: word(v, 2) }
    } else if tag == 0x39 {
        Instr::PMapWalkInit { dst: word(v, 0), state_idx: word(v, 1) }
    } else if tag == 0x3a {
        Instr::PMapWalkNext { cursor_reg: word(v, 0), value_reg: word(v, 1), end_offset: dist(v, 2) }
    } else if tag == 0x3b {
        Instr::PBTreeGet { dst: word(v, 0), state_idx: word(v, 1), key_reg: word(v, 2) }
    } else if tag == 0x3c {
        Instr::PBTreePut { state_idx: word(v, 0), key_reg: word(v, 1), src: word(v, 2) }
    } else if tag == 0x3d {
        Instr::PBTreeContains { dst: word(v, 0), state_idx: word(v, 1), key_reg: word(v, 2) }
    } else if tag == 0x3e {
        Instr::PBTreeRange { dst: word(v, 0), state_idx: word(v, 1), lo_reg: word(v, 2), hi_reg: word(v, 3) }
    } else if tag == 0x3f {
        Instr::PBTreeWalkInit { dst: word(v, 0), state_idx: word(v, 1) }
    } else if tag == 0x40 {
        Instr::PBTreeWalkNext { cursor_reg: word(v, 0), value_reg: word(v, 1), end_offset: dist(v, 2) }
    } else if tag == 0x41 {
        Instr::PBTreePutUnique { state_idx: word(v, 0), key_reg: word(v, 1), src: word(v, 2) }
    } else if tag == 0x42 {
        Instr::PBTreeAppendUnique { state_idx: word(v, 0), key_reg: word(v, 1), elem_reg: word(v, 2) }
    } else if tag == 0x43 {
        Instr::PMapDelete { state_idx: word(v, 0), key_reg: word(v, 1) }
    } else if tag == 0x44 {
        Instr::PBTreeDelete { state_idx: word(v, 0), key_reg: word(v, 1) }
    } else if tag == 0x45 {
        Instr::PMapRemoveUnique { state_idx: word(v, 0), key_reg: word(v, 1), expected_reg: word(v, 2) }
    } else if tag == 0x46 {
        Instr::PMapRemoveFromList { state_idx: word(v, 0), key_reg: word(v, 1), elem_reg: word(v, 2) }
    } else if tag == 0x47 {
        Instr::PBTreeRemoveUnique { state_idx: word(v, 0), key_reg: word(v, 1), expected_reg: word(v, 2) }
    } else if tag == 0x48 {
        Instr::PBTreeRemoveFromList { state_idx: word(v, 0), key_reg: word(v, 1), elem_reg: word(v, 2) }
    } else {
        Instr::ReturnUnit
    };
    assert(operands(r).1 =~= canonical(tag, v@));
    r
}

} // verus!
