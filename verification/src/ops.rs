//! Arithmetic, comparison and the builtin functions on values.

use vstd::prelude::*;
use vstd::arithmetic::power2::pow2;
use vstd::utf8::{decode_utf8, encode_utf8, is_char_boundary, valid_utf8};
use crate::ast::{BinOp, UnOp};
use crate::bigint::{BigInt, bit, decimal_int, quot, rest};
use crate::bytes::{be_bytes, push_all, push_be, slice_vec};
use crate::codec::text_from_utf8;
use crate::error::{Error, ErrorKind, ErrorView};
use crate::json::{Read, parse, read_all, value_text, write_canonical_value};
use crate::text::{concat2, concat3, decimal, push_decimal, same, text};
use crate::token::{Span, no_span};
use crate::value::{
    Json, JsonView, Value, ValueView, copy_pairs, copy_values, distinct_keys, equal, equal_is_reflexive,
    equal_is_symmetric, equal_is_transitive, field_at, pair_views, shown, value_view, views,
};

verus! {

pub open spec fn runtime_error(msg: Seq<char>, span: Span) -> ErrorView {
    ErrorView { kind: ErrorKind::Runtime, msg, span }
}

pub fn runtime_err(msg: String, span: Span) -> (r: Error)
    ensures
        r@ == runtime_error(msg@, span),
{
    Error::new(ErrorKind::Runtime, msg, span)
}

/// What a computation owes: a value or an error.
pub type Owed = Result<ValueView, ErrorView>;

/// Whether an outcome is the one that is owed.
pub open spec fn gives(r: Result<Value, Error>, want: Owed) -> bool {
    match want {
        Ok(v) => match r {
            Ok(x) => value_view(x) == v,
            Err(_) => false,
        },
        Err(x) => match r {
            Ok(_) => false,
            Err(e) => e@ == x,
        },
    }
}

pub open spec fn overflow(span: Span) -> ErrorView {
    runtime_error("integer overflow"@, span)
}

pub open spec fn div_zero(span: Span) -> ErrorView {
    runtime_error("division by zero"@, span)
}

fn overflow_err(span: Span) -> (r: Error)
    ensures
        r@ == overflow(span),
{
    runtime_err(text("integer overflow"), span)
}

fn div_zero_err(span: Span) -> (r: Error)
    ensures
        r@ == div_zero(span),
{
    runtime_err(text("division by zero"), span)
}

/// The name of an operator.
pub open spec fn op_name(op: BinOp) -> Seq<char> {
    match op {
        BinOp::Add => "Add"@,
        BinOp::Sub => "Sub"@,
        BinOp::Mul => "Mul"@,
        BinOp::Div => "Div"@,
        BinOp::Mod => "Mod"@,
        BinOp::Eq => "Eq"@,
        BinOp::NotEq => "NotEq"@,
        BinOp::Lt => "Lt"@,
        BinOp::Gt => "Gt"@,
        BinOp::LtEq => "LtEq"@,
        BinOp::GtEq => "GtEq"@,
        BinOp::And => "And"@,
        BinOp::Or => "Or"@,
        BinOp::BitAnd => "BitAnd"@,
        BinOp::BitOr => "BitOr"@,
        BinOp::BitXor => "BitXor"@,
        BinOp::Shl => "Shl"@,
        BinOp::Shr => "Shr"@,
    }
}

fn op_text(op: BinOp) -> (r: String)
    ensures
        r@ == op_name(op),
{
    match op {
        BinOp::Add => text("Add"),
        BinOp::Sub => text("Sub"),
        BinOp::Mul => text("Mul"),
        BinOp::Div => text("Div"),
        BinOp::Mod => text("Mod"),
        BinOp::Eq => text("Eq"),
        BinOp::NotEq => text("NotEq"),
        BinOp::Lt => text("Lt"),
        BinOp::Gt => text("Gt"),
        BinOp::LtEq => text("LtEq"),
        BinOp::GtEq => text("GtEq"),
        BinOp::And => text("And"),
        BinOp::Or => text("Or"),
        BinOp::BitAnd => text("BitAnd"),
        BinOp::BitOr => text("BitOr"),
        BinOp::BitXor => text("BitXor"),
        BinOp::Shl => text("Shl"),
        BinOp::Shr => text("Shr"),
    }
}

pub open spec fn undefined_for(op: BinOp, kind: Seq<char>, span: Span) -> ErrorView {
    runtime_error("operator "@ + op_name(op) + " not defined for "@ + kind + " values"@, span)
}

fn undefined_err(op: BinOp, kind: &str, span: Span) -> (r: Error)
    ensures
        r@ == undefined_for(op, kind@, span),
{
    let mut m = concat3("operator ", op_text(op).as_str(), " not defined for ");
    m.append(kind);
    m.append(" values");
    runtime_err(m, span)
}

/// An integer whose bits in two's complement are a function of those of `a` and
/// `b`.
pub open spec fn bitwise(a: int, b: int, f: spec_fn(bool, bool) -> bool) -> int {
    choose|r: int| has_bits(r, a, b, f)
}

pub open spec fn has_bits(r: int, a: int, b: int, f: spec_fn(bool, bool) -> bool) -> bool {
    forall|k: nat| #[trigger] bit(r, k) == f(bit(a, k), bit(b, k))
}

pub open spec fn int_and(a: int, b: int) -> int {
    bitwise(a, b, |x: bool, y: bool| x && y)
}

pub open spec fn int_or(a: int, b: int) -> int {
    bitwise(a, b, |x: bool, y: bool| x || y)
}

pub open spec fn int_xor(a: int, b: int) -> int {
    bitwise(a, b, |x: bool, y: bool| x != y)
}

/// Integers with the same bits are the same.
pub proof fn bits_tell_integers_apart(a: int, b: int)
    requires
        forall|k: nat| #[trigger] bit(a, k) == bit(b, k),
    ensures
        a == b,
    decreases (if a < 0 { -a } else { a }) + (if b < 0 { -b } else { b }),
{
    vstd::arithmetic::power2::lemma2_to64();
    assert(bit(a, 0) == bit(b, 0));
    assert(a / 1 == a && b / 1 == b);
    if -1 <= a <= 0 && -1 <= b <= 0 {
    } else {
        let x = a / 2;
        let y = b / 2;
        assert forall|k: nat| #[trigger] bit(x, k) == bit(y, k) by {
            lemma_bit_half(a, k);
            lemma_bit_half(b, k);
            assert(bit(a, k + 1) == bit(b, k + 1));
        }
        bits_tell_integers_apart(x, y);
    }
}

proof fn lemma_bit_half(a: int, k: nat)
    ensures
        bit(a / 2, k) == bit(a, k + 1),
{
    vstd::arithmetic::power2::lemma_pow2_pos(k);
    vstd::arithmetic::power2::lemma_pow2_unfold(k + 1);
    let p = pow2(k) as int;
    let h = a / 2;
    let q = h / p;
    let r = h % p;
    vstd::arithmetic::div_mod::lemma_fundamental_div_mod(h, p);
    assert(a == q * (2 * p) + (2 * r + a % 2)) by (nonlinear_arith)
        requires
            a == 2 * h + a % 2,
            h == p * q + r,
    ;
    vstd::arithmetic::div_mod::lemma_fundamental_div_mod_converse(a, 2 * p, q, 2 * r + a % 2);
}

proof fn lemma_bitwise(r: int, a: int, b: int, f: spec_fn(bool, bool) -> bool)
    requires
        has_bits(r, a, b, f),
    ensures
        bitwise(a, b, f) == r,
{
    let c = bitwise(a, b, f);
    assert(has_bits(c, a, b, f));
    assert forall|k: nat| #[trigger] bit(r, k) == bit(c, k) by {}
    bits_tell_integers_apart(r, c);
}

/// An operation on integers of any size. A natural number has no result below
/// zero.
pub open spec fn big_op(op: BinOp, a: int, b: int, natural: bool, span: Span) -> Owed {
    match op {
        BinOp::Add => Ok(big(a + b, natural)),
        BinOp::Sub => if natural && a < b {
            Err(overflow(span))
        } else {
            Ok(big(a - b, natural))
        },
        BinOp::Mul => Ok(big(a * b, natural)),
        BinOp::Div => if b == 0 {
            Err(div_zero(span))
        } else {
            Ok(big(quot(a, b), natural))
        },
        BinOp::Mod => if b == 0 {
            Err(div_zero(span))
        } else {
            Ok(big(rest(a, b), natural))
        },
        BinOp::Lt => Ok(ValueView::Bool(a < b)),
        BinOp::Gt => Ok(ValueView::Bool(a > b)),
        BinOp::LtEq => Ok(ValueView::Bool(a <= b)),
        BinOp::GtEq => Ok(ValueView::Bool(a >= b)),
        BinOp::Eq => Ok(ValueView::Bool(a == b)),
        BinOp::NotEq => Ok(ValueView::Bool(a != b)),
        BinOp::BitAnd => Ok(big(int_and(a, b), natural)),
        BinOp::BitOr => Ok(big(int_or(a, b), natural)),
        BinOp::BitXor => Ok(big(int_xor(a, b), natural)),
        BinOp::Shl => if 0 <= b <= u32::MAX {
            Ok(big(a * pow2(b as nat), natural))
        } else {
            Err(overflow(span))
        },
        BinOp::Shr => if 0 <= b <= u32::MAX {
            Ok(big(a / pow2(b as nat) as int, natural))
        } else {
            Err(overflow(span))
        },
        BinOp::And | BinOp::Or => Err(
            undefined_for(op, if natural { "UInt"@ } else { "Int"@ }, span),
        ),
    }
}

pub open spec fn big(n: int, natural: bool) -> ValueView {
    if natural {
        ValueView::UInt(n)
    } else {
        ValueView::Int(n)
    }
}

fn make_big(n: BigInt, natural: bool) -> (r: Value)
    ensures
        value_view(r) == big(n@, natural),
{
    if natural {
        Value::UInt(n)
    } else {
        Value::Int(n)
    }
}

#[verifier::rlimit(30)]
fn eval_big(op: BinOp, a: &BigInt, b: &BigInt, natural: bool, span: Span) -> (r: Result<Value, Error>)
    ensures
        gives(r, big_op(op, a@, b@, natural, span)),
{
    let zero = BigInt::from_i64(0);
    match op {
        BinOp::Add => Ok(make_big(a.plus(b), natural)),
        BinOp::Sub => if natural && a.less(b) {
            Err(overflow_err(span))
        } else {
            Ok(make_big(a.minus(b), natural))
        },
        BinOp::Mul => Ok(make_big(a.times(b), natural)),
        BinOp::Div => if b.same(&zero) {
            Err(div_zero_err(span))
        } else {
            Ok(make_big(a.quotient(b), natural))
        },
        BinOp::Mod => if b.same(&zero) {
            Err(div_zero_err(span))
        } else {
            Ok(make_big(a.remainder(b), natural))
        },
        BinOp::Lt => Ok(Value::Bool(a.less(b))),
        BinOp::Gt => Ok(Value::Bool(b.less(a))),
        BinOp::LtEq => Ok(Value::Bool(!b.less(a))),
        BinOp::GtEq => Ok(Value::Bool(!a.less(b))),
        BinOp::Eq => Ok(Value::Bool(a.same(b))),
        BinOp::NotEq => Ok(Value::Bool(!a.same(b))),
        BinOp::BitAnd => {
            let n = a.bit_and(b);
            proof {
                lemma_bitwise(n@, a@, b@, |x: bool, y: bool| x && y);
            }
            Ok(make_big(n, natural))
        },
        BinOp::BitOr => {
            let n = a.bit_or(b);
            proof {
                lemma_bitwise(n@, a@, b@, |x: bool, y: bool| x || y);
            }
            Ok(make_big(n, natural))
        },
        BinOp::BitXor => {
            let n = a.bit_xor(b);
            proof {
                lemma_bitwise(n@, a@, b@, |x: bool, y: bool| x != y);
            }
            Ok(make_big(n, natural))
        },
        BinOp::Shl => match b.to_u64() {
            Some(n) => if n <= 0xffff_ffff {
                Ok(make_big(a.shifted_left(n as u32), natural))
            } else {
                Err(overflow_err(span))
            },
            None => Err(overflow_err(span)),
        },
        BinOp::Shr => match b.to_u64() {
            Some(n) => if n <= 0xffff_ffff {
                Ok(make_big(a.shifted_right(n as u32), natural))
            } else {
                Err(overflow_err(span))
            },
            None => Err(overflow_err(span)),
        },
        BinOp::And | BinOp::Or => Err(
            undefined_err(op, if natural { "UInt" } else { "Int" }, span),
        ),
    }
}

/// An operation on two `u32` values.
pub open spec fn u32_op(op: BinOp, a: u32, b: u32, span: Span) -> Owed {
    match op {
        BinOp::Add => if a + b > u32::MAX {
            Err(overflow(span))
        } else {
            Ok(ValueView::U32((a + b) as u32))
        },
        BinOp::Sub => if a < b {
            Err(overflow(span))
        } else {
            Ok(ValueView::U32((a - b) as u32))
        },
        BinOp::Mul => if a * b > u32::MAX {
            Err(overflow(span))
        } else {
            Ok(ValueView::U32((a * b) as u32))
        },
        BinOp::Div => if b == 0 {
            Err(div_zero(span))
        } else {
            Ok(ValueView::U32(a / b))
        },
        BinOp::Mod => if b == 0 {
            Err(div_zero(span))
        } else {
            Ok(ValueView::U32(a % b))
        },
        BinOp::Lt => Ok(ValueView::Bool(a < b)),
        BinOp::Gt => Ok(ValueView::Bool(a > b)),
        BinOp::LtEq => Ok(ValueView::Bool(a <= b)),
        BinOp::GtEq => Ok(ValueView::Bool(a >= b)),
        BinOp::Eq => Ok(ValueView::Bool(a == b)),
        BinOp::NotEq => Ok(ValueView::Bool(a != b)),
        BinOp::BitAnd => Ok(ValueView::U32(a & b)),
        BinOp::BitOr => Ok(ValueView::U32(a | b)),
        BinOp::BitXor => Ok(ValueView::U32(a ^ b)),
        BinOp::Shl => if b < 32 {
            Ok(ValueView::U32(a << b))
        } else {
            Err(overflow(span))
        },
        BinOp::Shr => if b < 32 {
            Ok(ValueView::U32(a >> b))
        } else {
            Err(overflow(span))
        },
        BinOp::And | BinOp::Or => Err(undefined_for(op, "U32"@, span)),
    }
}

fn eval_u32(op: BinOp, a: u32, b: u32, span: Span) -> (r: Result<Value, Error>)
    ensures
        gives(r, u32_op(op, a, b, span)),
{
    match op {
        BinOp::Add => match a.checked_add(b) {
            Some(n) => Ok(Value::U32(n)),
            None => Err(overflow_err(span)),
        },
        BinOp::Sub => match a.checked_sub(b) {
            Some(n) => Ok(Value::U32(n)),
            None => Err(overflow_err(span)),
        },
        BinOp::Mul => match a.checked_mul(b) {
            Some(n) => Ok(Value::U32(n)),
            None => Err(overflow_err(span)),
        },
        BinOp::Div => if b == 0 {
            Err(div_zero_err(span))
        } else {
            Ok(Value::U32(a / b))
        },
        BinOp::Mod => if b == 0 {
            Err(div_zero_err(span))
        } else {
            Ok(Value::U32(a % b))
        },
        BinOp::Lt => Ok(Value::Bool(a < b)),
        BinOp::Gt => Ok(Value::Bool(a > b)),
        BinOp::LtEq => Ok(Value::Bool(a <= b)),
        BinOp::GtEq => Ok(Value::Bool(a >= b)),
        BinOp::Eq => Ok(Value::Bool(a == b)),
        BinOp::NotEq => Ok(Value::Bool(a != b)),
        BinOp::BitAnd => Ok(Value::U32(a & b)),
        BinOp::BitOr => Ok(Value::U32(a | b)),
        BinOp::BitXor => Ok(Value::U32(a ^ b)),
        BinOp::Shl => if b < 32 {
            Ok(Value::U32(a << b))
        } else {
            Err(overflow_err(span))
        },
        BinOp::Shr => if b < 32 {
            Ok(Value::U32(a >> b))
        } else {
            Err(overflow_err(span))
        },
        BinOp::And | BinOp::Or => Err(undefined_err(op, "U32", span)),
    }
}

/// An operation on two `u64` values.
pub open spec fn u64_op(op: BinOp, a: u64, b: u64, span: Span) -> Owed {
    match op {
        BinOp::Add => if a + b > u64::MAX {
            Err(overflow(span))
        } else {
            Ok(ValueView::U64((a + b) as u64))
        },
        BinOp::Sub => if a < b {
            Err(overflow(span))
        } else {
            Ok(ValueView::U64((a - b) as u64))
        },
        BinOp::Mul => if a * b > u64::MAX {
            Err(overflow(span))
        } else {
            Ok(ValueView::U64((a * b) as u64))
        },
        BinOp::Div => if b == 0 {
            Err(div_zero(span))
        } else {
            Ok(ValueView::U64(a / b))
        },
        BinOp::Mod => if b == 0 {
            Err(div_zero(span))
        } else {
            Ok(ValueView::U64(a % b))
        },
        BinOp::Lt => Ok(ValueView::Bool(a < b)),
        BinOp::Gt => Ok(ValueView::Bool(a > b)),
        BinOp::LtEq => Ok(ValueView::Bool(a <= b)),
        BinOp::GtEq => Ok(ValueView::Bool(a >= b)),
        BinOp::Eq => Ok(ValueView::Bool(a == b)),
        BinOp::NotEq => Ok(ValueView::Bool(a != b)),
        BinOp::BitAnd => Ok(ValueView::U64(a & b)),
        BinOp::BitOr => Ok(ValueView::U64(a | b)),
        BinOp::BitXor => Ok(ValueView::U64(a ^ b)),
        BinOp::Shl => if b < 64 {
            Ok(ValueView::U64(a << b))
        } else {
            Err(overflow(span))
        },
        BinOp::Shr => if b < 64 {
            Ok(ValueView::U64(a >> b))
        } else {
            Err(overflow(span))
        },
        BinOp::And | BinOp::Or => Err(undefined_for(op, "U64"@, span)),
    }
}

fn eval_u64(op: BinOp, a: u64, b: u64, span: Span) -> (r: Result<Value, Error>)
    ensures
        gives(r, u64_op(op, a, b, span)),
{
    match op {
        BinOp::Add => match a.checked_add(b) {
            Some(n) => Ok(Value::U64(n)),
            None => Err(overflow_err(span)),
        },
        BinOp::Sub => match a.checked_sub(b) {
            Some(n) => Ok(Value::U64(n)),
            None => Err(overflow_err(span)),
        },
        BinOp::Mul => match a.checked_mul(b) {
            Some(n) => Ok(Value::U64(n)),
            None => Err(overflow_err(span)),
        },
        BinOp::Div => if b == 0 {
            Err(div_zero_err(span))
        } else {
            Ok(Value::U64(a / b))
        },
        BinOp::Mod => if b == 0 {
            Err(div_zero_err(span))
        } else {
            Ok(Value::U64(a % b))
        },
        BinOp::Lt => Ok(Value::Bool(a < b)),
        BinOp::Gt => Ok(Value::Bool(a > b)),
        BinOp::LtEq => Ok(Value::Bool(a <= b)),
        BinOp::GtEq => Ok(Value::Bool(a >= b)),
        BinOp::Eq => Ok(Value::Bool(a == b)),
        BinOp::NotEq => Ok(Value::Bool(a != b)),
        BinOp::BitAnd => Ok(Value::U64(a & b)),
        BinOp::BitOr => Ok(Value::U64(a | b)),
        BinOp::BitXor => Ok(Value::U64(a ^ b)),
        BinOp::Shl => if b < 64 {
            Ok(Value::U64(a << b))
        } else {
            Err(overflow_err(span))
        },
        BinOp::Shr => if b < 64 {
            Ok(Value::U64(a >> b))
        } else {
            Err(overflow_err(span))
        },
        BinOp::And | BinOp::Or => Err(undefined_err(op, "U64", span)),
    }
}

/// An operation on two `u128` values.
pub open spec fn u128_op(op: BinOp, a: u128, b: u128, span: Span) -> Owed {
    match op {
        BinOp::Add => if a + b > u128::MAX {
            Err(overflow(span))
        } else {
            Ok(ValueView::U128((a + b) as u128))
        },
        BinOp::Sub => if a < b {
            Err(overflow(span))
        } else {
            Ok(ValueView::U128((a - b) as u128))
        },
        BinOp::Mul => if a * b > u128::MAX {
            Err(overflow(span))
        } else {
            Ok(ValueView::U128((a * b) as u128))
        },
        BinOp::Div => if b == 0 {
            Err(div_zero(span))
        } else {
            Ok(ValueView::U128(a / b))
        },
        BinOp::Mod => if b == 0 {
            Err(div_zero(span))
        } else {
            Ok(ValueView::U128(a % b))
        },
        BinOp::Lt => Ok(ValueView::Bool(a < b)),
        BinOp::Gt => Ok(ValueView::Bool(a > b)),
        BinOp::LtEq => Ok(ValueView::Bool(a <= b)),
        BinOp::GtEq => Ok(ValueView::Bool(a >= b)),
        BinOp::Eq => Ok(ValueView::Bool(a == b)),
        BinOp::NotEq => Ok(ValueView::Bool(a != b)),
        BinOp::BitAnd => Ok(ValueView::U128(a & b)),
        BinOp::BitOr => Ok(ValueView::U128(a | b)),
        BinOp::BitXor => Ok(ValueView::U128(a ^ b)),
        BinOp::Shl => if b < 128 {
            Ok(ValueView::U128(a << b))
        } else {
            Err(overflow(span))
        },
        BinOp::Shr => if b < 128 {
            Ok(ValueView::U128(a >> b))
        } else {
            Err(overflow(span))
        },
        BinOp::And | BinOp::Or => Err(undefined_for(op, "U128"@, span)),
    }
}

fn eval_u128(op: BinOp, a: u128, b: u128, span: Span) -> (r: Result<Value, Error>)
    ensures
        gives(r, u128_op(op, a, b, span)),
{
    match op {
        BinOp::Add => match a.checked_add(b) {
            Some(n) => Ok(Value::U128(n)),
            None => Err(overflow_err(span)),
        },
        BinOp::Sub => match a.checked_sub(b) {
            Some(n) => Ok(Value::U128(n)),
            None => Err(overflow_err(span)),
        },
        BinOp::Mul => match a.checked_mul(b) {
            Some(n) => Ok(Value::U128(n)),
            None => Err(overflow_err(span)),
        },
        BinOp::Div => if b == 0 {
            Err(div_zero_err(span))
        } else {
            Ok(Value::U128(a / b))
        },
        BinOp::Mod => if b == 0 {
            Err(div_zero_err(span))
        } else {
            Ok(Value::U128(a % b))
        },
        BinOp::Lt => Ok(Value::Bool(a < b)),
        BinOp::Gt => Ok(Value::Bool(a > b)),
        BinOp::LtEq => Ok(Value::Bool(a <= b)),
        BinOp::GtEq => Ok(Value::Bool(a >= b)),
        BinOp::Eq => Ok(Value::Bool(a == b)),
        BinOp::NotEq => Ok(Value::Bool(a != b)),
        BinOp::BitAnd => Ok(Value::U128(a & b)),
        BinOp::BitOr => Ok(Value::U128(a | b)),
        BinOp::BitXor => Ok(Value::U128(a ^ b)),
        BinOp::Shl => if b < 128 {
            Ok(Value::U128(a << b))
        } else {
            Err(overflow_err(span))
        },
        BinOp::Shr => if b < 128 {
            Ok(Value::U128(a >> b))
        } else {
            Err(overflow_err(span))
        },
        BinOp::And | BinOp::Or => Err(undefined_err(op, "U128", span)),
    }
}

/// A number as an `i32`, if it is one.
pub open spec fn in_i32(n: int, span: Span) -> Owed {
    if i32::MIN <= n <= i32::MAX {
        Ok(ValueView::I32(n as i32))
    } else {
        Err(overflow(span))
    }
}

/// An operation on two `i32` values.
pub open spec fn i32_op(op: BinOp, a: i32, b: i32, span: Span) -> Owed {
    match op {
        BinOp::Add => in_i32(a + b, span),
        BinOp::Sub => in_i32(a - b, span),
        BinOp::Mul => in_i32(a * b, span),
        BinOp::Div => if b == 0 {
            Err(div_zero(span))
        } else {
            in_i32(quot(a as int, b as int), span)
        },
        BinOp::Mod => if b == 0 {
            Err(div_zero(span))
        } else if a == i32::MIN && b == -1 {
            Err(overflow(span))
        } else {
            in_i32(rest(a as int, b as int), span)
        },
        BinOp::Lt => Ok(ValueView::Bool(a < b)),
        BinOp::Gt => Ok(ValueView::Bool(a > b)),
        BinOp::LtEq => Ok(ValueView::Bool(a <= b)),
        BinOp::GtEq => Ok(ValueView::Bool(a >= b)),
        BinOp::Eq => Ok(ValueView::Bool(a == b)),
        BinOp::NotEq => Ok(ValueView::Bool(a != b)),
        BinOp::BitAnd => Ok(ValueView::I32(a & b)),
        BinOp::BitOr => Ok(ValueView::I32(a | b)),
        BinOp::BitXor => Ok(ValueView::I32(a ^ b)),
        BinOp::Shl => if 0 <= b < 32 {
            Ok(ValueView::I32(a << b))
        } else {
            Err(overflow(span))
        },
        BinOp::Shr => if 0 <= b < 32 {
            Ok(ValueView::I32(a >> b))
        } else {
            Err(overflow(span))
        },
        BinOp::And | BinOp::Or => Err(undefined_for(op, "I32"@, span)),
    }
}

fn fit_i32(n: i64, span: Span) -> (r: Result<Value, Error>)
    ensures
        gives(r, in_i32(n as int, span)),
{
    if -0x8000_0000 <= n && n <= 0x7fff_ffff {
        Ok(Value::I32(n as i32))
    } else {
        Err(overflow_err(span))
    }
}

/// The quotient rounded toward zero.
fn quot_i64(a: i64, b: i64) -> (r: i64)
    requires
        -0x8000_0000 <= a <= 0x7fff_ffff,
        -0x8000_0000 <= b <= 0x7fff_ffff,
        b != 0,
    ensures
        r == quot(a as int, b as int),
        -0x8000_0000 <= r <= 0x8000_0000,
{
    let x: u64 = if a < 0 { (0 - a) as u64 } else { a as u64 };
    let y: u64 = if b < 0 { (0 - b) as u64 } else { b as u64 };
    let q: u64 = x / y;
    assert(q <= x) by (nonlinear_arith)
        requires
            q == x / y,
            y >= 1,
    ;
    if (a < 0) == (b < 0) {
        q as i64
    } else {
        0 - q as i64
    }
}

fn eval_i32(op: BinOp, a: i32, b: i32, span: Span) -> (r: Result<Value, Error>)
    ensures
        gives(r, i32_op(op, a, b, span)),
{
    match op {
        BinOp::Add => fit_i32(a as i64 + b as i64, span),
        BinOp::Sub => fit_i32(a as i64 - b as i64, span),
        BinOp::Mul => {
            assert(-0x4000_0000_0000_0000 <= a * b <= 0x4000_0000_0000_0000) by (nonlinear_arith)
                requires
                    -0x8000_0000 <= a <= 0x7fff_ffff,
                    -0x8000_0000 <= b <= 0x7fff_ffff,
            ;
            fit_i32(a as i64 * b as i64, span)
        },
        BinOp::Div => if b == 0 {
            Err(div_zero_err(span))
        } else {
            fit_i32(quot_i64(a as i64, b as i64), span)
        },
        BinOp::Mod => if b == 0 {
            Err(div_zero_err(span))
        } else if a == i32::MIN && b == -1 {
            Err(overflow_err(span))
        } else {
            let q: i64 = quot_i64(a as i64, b as i64);
            assert(-0x4000_0000_0000_0000 <= b * q <= 0x4000_0000_0000_0000) by (nonlinear_arith)
                requires
                    -0x8000_0000 <= q <= 0x8000_0000,
                    -0x8000_0000 <= b <= 0x7fff_ffff,
            ;
            fit_i32(a as i64 - b as i64 * q, span)
        },
        BinOp::Lt => Ok(Value::Bool(a < b)),
        BinOp::Gt => Ok(Value::Bool(a > b)),
        BinOp::LtEq => Ok(Value::Bool(a <= b)),
        BinOp::GtEq => Ok(Value::Bool(a >= b)),
        BinOp::Eq => Ok(Value::Bool(a == b)),
        BinOp::NotEq => Ok(Value::Bool(a != b)),
        BinOp::BitAnd => Ok(Value::I32(a & b)),
        BinOp::BitOr => Ok(Value::I32(a | b)),
        BinOp::BitXor => Ok(Value::I32(a ^ b)),
        BinOp::Shl => if 0 <= b && b < 32 {
            Ok(Value::I32(a << b))
        } else {
            Err(overflow_err(span))
        },
        BinOp::Shr => if 0 <= b && b < 32 {
            Ok(Value::I32(a >> b))
        } else {
            Err(overflow_err(span))
        },
        BinOp::And | BinOp::Or => Err(undefined_err(op, "I32", span)),
    }
}

/// The kind of a value, as a number.
pub open spec fn kind(v: ValueView) -> int {
    match v {
        ValueView::Int(_) => 0,
        ValueView::UInt(_) => 1,
        ValueView::Float(_) => 2,
        ValueView::I32(_) => 3,
        ValueView::U32(_) => 4,
        ValueView::U64(_) => 5,
        ValueView::U128(_) => 6,
        ValueView::Bool(_) => 7,
        ValueView::Unit => 8,
        ValueView::Resource(_) => 9,
        ValueView::Str(_) => 10,
        ValueView::Address(_) => 11,
        ValueView::Bytes(_) => 12,
        ValueView::Array(_) => 13,
        ValueView::SetOf(_) => 14,
        ValueView::Dict(_) => 15,
        ValueView::Tuple(_) => 16,
        ValueView::Struct { .. } => 17,
        ValueView::Enum { .. } => 18,
        ValueView::Json(_) => 19,
        ValueView::PMap(_) => 20,
        ValueView::PBTree(_) => 21,
        ValueView::PVec { .. } => 22,
        ValueView::Interface { .. } => 23,
    }
}

fn kind_of(v: &Value) -> (r: u8)
    ensures
        r == kind(value_view(*v)),
{
    match v {
        Value::Int(_) => 0,
        Value::UInt(_) => 1,
        Value::Float(_) => 2,
        Value::I32(_) => 3,
        Value::U32(_) => 4,
        Value::U64(_) => 5,
        Value::U128(_) => 6,
        Value::Bool(_) => 7,
        Value::Unit => 8,
        Value::Resource(_) => 9,
        Value::Str(_) => 10,
        Value::Address(_) => 11,
        Value::Bytes(_) => 12,
        Value::Array(_) => 13,
        Value::SetOf(_) => 14,
        Value::Dict(_) => 15,
        Value::Tuple(_) => 16,
        Value::Struct { .. } => 17,
        Value::Enum { .. } => 18,
        Value::Json(_) => 19,
        Value::PMap(_) => 20,
        Value::PBTree(_) => 21,
        Value::PVec { .. } => 22,
        Value::Interface { .. } => 23,
    }
}

pub open spec fn mismatch(op: BinOp, l: ValueView, r: ValueView, span: Span) -> ErrorView {
    runtime_error("type error: "@ + shown(l) + " "@ + op_name(op) + " "@ + shown(r), span)
}

fn mismatch_err(op: BinOp, l: &Value, r: &Value, span: Span) -> (e: Error)
    ensures
        e@ == mismatch(op, l@, r@, span),
{
    let mut m = concat3("type error: ", l.to_string().as_str(), " ");
    m.append(op_text(op).as_str());
    m.append(" ");
    m.append(r.to_string().as_str());
    runtime_err(m, span)
}

/// What a binary operator gives: arithmetic on two integers of one type, logic on
/// two booleans, and equality on any two values of one kind.
pub open spec fn binary(op: BinOp, l: ValueView, r: ValueView, span: Span) -> Owed {
    match (l, r) {
        (ValueView::Int(a), ValueView::Int(b)) => big_op(op, a, b, false, span),
        (ValueView::UInt(a), ValueView::UInt(b)) => big_op(op, a, b, true, span),
        (ValueView::I32(a), ValueView::I32(b)) => i32_op(op, a, b, span),
        (ValueView::U32(a), ValueView::U32(b)) => u32_op(op, a, b, span),
        (ValueView::U64(a), ValueView::U64(b)) => u64_op(op, a, b, span),
        (ValueView::U128(a), ValueView::U128(b)) => u128_op(op, a, b, span),
        (ValueView::Bool(a), ValueView::Bool(b)) => match op {
            BinOp::And => Ok(ValueView::Bool(a && b)),
            BinOp::Or => Ok(ValueView::Bool(a || b)),
            BinOp::Eq => Ok(ValueView::Bool(a == b)),
            BinOp::NotEq => Ok(ValueView::Bool(a != b)),
            _ => Err(mismatch(op, l, r, span)),
        },
        _ => if kind(l) != kind(r) {
            Err(mismatch(op, l, r, span))
        } else {
            match op {
                BinOp::Eq => Ok(ValueView::Bool(equal(l, r))),
                BinOp::NotEq => Ok(ValueView::Bool(!equal(l, r))),
                _ => Err(mismatch(op, l, r, span)),
            }
        },
    }
}

/// Applies a binary operator.
pub fn eval_binary(op: BinOp, l: &Value, r: &Value, span: Span) -> (out: Result<Value, Error>)
    ensures
        gives(out, binary(op, l@, r@, span)),
{
    match (l, r) {
        (Value::Int(a), Value::Int(b)) => eval_big(op, a, b, false, span),
        (Value::UInt(a), Value::UInt(b)) => eval_big(op, a, b, true, span),
        (Value::I32(a), Value::I32(b)) => eval_i32(op, *a, *b, span),
        (Value::U32(a), Value::U32(b)) => eval_u32(op, *a, *b, span),
        (Value::U64(a), Value::U64(b)) => eval_u64(op, *a, *b, span),
        (Value::U128(a), Value::U128(b)) => eval_u128(op, *a, *b, span),
        (Value::Bool(a), Value::Bool(b)) => match op {
            BinOp::And => Ok(Value::Bool(*a && *b)),
            BinOp::Or => Ok(Value::Bool(*a || *b)),
            BinOp::Eq => Ok(Value::Bool(*a == *b)),
            BinOp::NotEq => Ok(Value::Bool(*a != *b)),
            _ => Err(mismatch_err(op, l, r, span)),
        },
        _ => if kind_of(l) != kind_of(r) {
            Err(mismatch_err(op, l, r, span))
        } else {
            match op {
                BinOp::Eq => Ok(Value::Bool(l.same(r))),
                BinOp::NotEq => Ok(Value::Bool(!l.same(r))),
                _ => Err(mismatch_err(op, l, r, span)),
            }
        },
    }
}

pub open spec fn unary_name(op: UnOp) -> Seq<char> {
    match op {
        UnOp::Neg => "Neg"@,
        UnOp::Not => "Not"@,
    }
}

/// What a unary operator gives.
pub open spec fn unary(op: UnOp, v: ValueView, span: Span) -> Owed {
    match (op, v) {
        (UnOp::Neg, ValueView::Int(n)) => Ok(ValueView::Int(-n)),
        (UnOp::Neg, ValueView::UInt(n)) => if n == 0 {
            Ok(v)
        } else {
            Err(overflow(span))
        },
        (UnOp::Neg, ValueView::I32(n)) => in_i32(-n, span),
        (UnOp::Neg, ValueView::U32(n)) => if n == 0 {
            Ok(v)
        } else {
            Err(overflow(span))
        },
        (UnOp::Neg, ValueView::U64(n)) => if n == 0 {
            Ok(v)
        } else {
            Err(overflow(span))
        },
        (UnOp::Neg, ValueView::U128(n)) => if n == 0 {
            Ok(v)
        } else {
            Err(overflow(span))
        },
        (UnOp::Not, ValueView::Bool(b)) => Ok(ValueView::Bool(!b)),
        _ => Err(runtime_error("type error: "@ + unary_name(op) + " "@ + shown(v), span)),
    }
}

/// Applies a unary operator.
pub fn eval_unary(op: UnOp, v: &Value, span: Span) -> (out: Result<Value, Error>)
    ensures
        gives(out, unary(op, v@, span)),
{
    match (op, v) {
        (UnOp::Neg, Value::Int(n)) => Ok(Value::Int(BigInt::from_i64(0).minus(n))),
        (UnOp::Neg, Value::UInt(n)) => if n.same(&BigInt::from_i64(0)) {
            Ok(v.copy())
        } else {
            Err(overflow_err(span))
        },
        (UnOp::Neg, Value::I32(n)) => fit_i32(0 - *n as i64, span),
        (UnOp::Neg, Value::U32(n)) => if *n == 0 {
            Ok(v.copy())
        } else {
            Err(overflow_err(span))
        },
        (UnOp::Neg, Value::U64(n)) => if *n == 0 {
            Ok(v.copy())
        } else {
            Err(overflow_err(span))
        },
        (UnOp::Neg, Value::U128(n)) => if *n == 0 {
            Ok(v.copy())
        } else {
            Err(overflow_err(span))
        },
        (UnOp::Not, Value::Bool(b)) => Ok(Value::Bool(!*b)),
        _ => {
            let name = match op {
                UnOp::Neg => "Neg",
                UnOp::Not => "Not",
            };
            let mut m = concat3("type error: ", name, " ");
            m.append(v.to_string().as_str());
            Err(runtime_err(m, span))
        },
    }
}

/// The integer that a value of an integer type holds.
pub open spec fn integer(v: ValueView) -> Option<int> {
    match v {
        ValueView::Int(n) => Some(n),
        ValueView::I32(n) => Some(n as int),
        ValueView::U32(n) => Some(n as int),
        ValueView::U64(n) => Some(n as int),
        ValueView::U128(n) => Some(n as int),
        _ => None,
    }
}

pub open spec fn out_of_range(span: Span) -> ErrorView {
    runtime_error("integer out of range"@, span)
}

/// An integer as a value of the target type, if it is in its range. The targets
/// are `i64`, `i32`, `u32`, `u64` and `u128`, in this order.
pub open spec fn converted(n: int, target: u8, span: Span) -> Owed {
    if target == 0 && i64::MIN <= n <= i64::MAX {
        Ok(ValueView::Int(n))
    } else if target == 1 && i32::MIN <= n <= i32::MAX {
        Ok(ValueView::I32(n as i32))
    } else if target == 2 && 0 <= n <= u32::MAX {
        Ok(ValueView::U32(n as u32))
    } else if target == 3 && 0 <= n <= u64::MAX {
        Ok(ValueView::U64(n as u64))
    } else if target == 4 && 0 <= n <= u128::MAX {
        Ok(ValueView::U128(n as u128))
    } else {
        Err(out_of_range(span))
    }
}

pub open spec fn conversion(v: ValueView, target: u8, span: Span) -> Owed {
    match integer(v) {
        Some(n) => converted(n, target, span),
        None => Err(
            runtime_error(
                "can't convert "@ + shown(v) + " to int kind "@ + decimal(target as nat),
                span,
            ),
        ),
    }
}

/// Converts between the integer types, within their bounds.
pub fn convert(value: &Value, target: u8, span: Span) -> (r: Result<Value, Error>)
    ensures
        gives(r, conversion(value@, target, span)),
{
    let n = match value {
        Value::Int(n) => n.copy(),
        Value::I32(n) => BigInt::from_i64(*n as i64),
        Value::U32(n) => BigInt::from_u128(*n as u128),
        Value::U64(n) => BigInt::from_u128(*n as u128),
        Value::U128(n) => BigInt::from_u128(*n),
        _ => {
            let mut m = concat3("can't convert ", value.to_string().as_str(), " to int kind ");
            push_decimal(&mut m, target as u128);
            return Err(runtime_err(m, span));
        },
    };
    if target == 0 || target == 1 {
        match n.to_i64() {
            Some(k) => if target == 0 {
                return Ok(Value::Int(n));
            } else if -0x8000_0000 <= k && k <= 0x7fff_ffff {
                return Ok(Value::I32(k as i32));
            },
            None => {},
        }
    } else if target <= 4 {
        match n.to_u128() {
            Some(k) => if target == 2 && k <= 0xffff_ffff {
                return Ok(Value::U32(k as u32));
            } else if target == 3 && k <= 0xffff_ffff_ffff_ffff {
                return Ok(Value::U64(k as u64));
            } else if target == 4 {
                return Ok(Value::U128(k));
            },
            None => {},
        }
    }
    Err(runtime_err(text("integer out of range"), span))
}

/// A conversion that succeeds keeps the integer.
pub proof fn conversion_keeps_the_integer(v: ValueView, target: u8, span: Span)
    ensures
        match conversion(v, target, span) {
            Ok(w) => integer(w) == integer(v),
            Err(_) => true,
        },
{
}

/// Addition and multiplication of integers of any size never fail.
pub proof fn big_sums_never_fail(a: int, b: int, natural: bool, span: Span)
    ensures
        big_op(BinOp::Add, a, b, natural, span) is Ok,
        big_op(BinOp::Mul, a, b, natural, span) is Ok,
{
}

pub open spec fn bad(msg: Seq<char>) -> ErrorView {
    runtime_error(msg, no_span())
}

fn bad_err(msg: String) -> (r: Error)
    ensures
        r@ == bad(msg@),
{
    runtime_err(msg, Span::default())
}

/// The first member equal to `v`, from the `i`-th on.
pub open spec fn member_at(s: Seq<ValueView>, v: ValueView, i: nat) -> Option<int>
    decreases s.len() - i,
{
    if i >= s.len() {
        None
    } else if equal(s[i as int], v) {
        Some(i as int)
    } else {
        member_at(s, v, i + 1)
    }
}

pub fn find_member(s: &Vec<Value>, v: &Value) -> (r: Option<usize>)
    ensures
        match r {
            Some(k) => member_at(views(s@), v@, 0) == Some(k as int) && k < s@.len(),
            None => member_at(views(s@), v@, 0) is None,
        },
{
    let mut i: usize = 0;
    while i < s.len()
        invariant
            i <= s@.len(),
            member_at(views(s@), v@, 0) == member_at(views(s@), v@, i as nat),
        decreases s@.len() - i,
    {
        if s[i].same(v) {
            return Some(i);
        }
        i = i + 1;
    }
    None
}

/// The first entry whose key equals `k`, from the `i`-th on.
pub open spec fn key_at(s: Seq<(ValueView, ValueView)>, k: ValueView, i: nat) -> Option<int>
    decreases s.len() - i,
{
    if i >= s.len() {
        None
    } else if equal(s[i as int].0, k) {
        Some(i as int)
    } else {
        key_at(s, k, i + 1)
    }
}

pub fn find_key(s: &Vec<(Value, Value)>, k: &Value) -> (r: Option<usize>)
    ensures
        match r {
            Some(j) => key_at(pair_views(s@), k@, 0) == Some(j as int) && j < s@.len(),
            None => key_at(pair_views(s@), k@, 0) is None,
        },
{
    let mut i: usize = 0;
    while i < s.len()
        invariant
            i <= s@.len(),
            key_at(pair_views(s@), k@, 0) == key_at(pair_views(s@), k@, i as nat),
        decreases s@.len() - i,
    {
        if s[i].0.same(k) {
            return Some(i);
        }
        i = i + 1;
    }
    None
}

/// A set with one more member, if it is not there yet.
pub open spec fn with_member(s: Seq<ValueView>, v: ValueView) -> Seq<ValueView> {
    match member_at(s, v, 0) {
        Some(_) => s,
        None => s.push(v),
    }
}

pub fn add_member(s: &mut Vec<Value>, v: Value)
    ensures
        views(final(s)@) == with_member(views(old(s)@), v@),
{
    let ghost before = views(s@);
    match find_member(s, &v) {
        Some(_) => {},
        None => {
            let ghost x = v@;
            s.push(v);
            assert(views(s@) =~= before.push(x));
        },
    }
}

/// A dict with an entry: a key that is there keeps its place and gets the new
/// value.
pub open spec fn with_entry(s: Seq<(ValueView, ValueView)>, k: ValueView, v: ValueView) -> Seq<
    (ValueView, ValueView),
> {
    match key_at(s, k, 0) {
        Some(i) => s.update(i, (s[i].0, v)),
        None => s.push((k, v)),
    }
}

pub fn add_entry(s: &mut Vec<(Value, Value)>, k: Value, v: Value)
    ensures
        pair_views(final(s)@) == with_entry(pair_views(old(s)@), k@, v@),
{
    let ghost before = pair_views(s@);
    match find_key(s, &k) {
        Some(i) => {
            let kept = s[i].0.copy();
            let ghost x = v@;
            s.set(i, (kept, v));
            assert(pair_views(s@) =~= before.update(i as int, (before[i as int].0, x)));
        },
        None => {
            let ghost e = (k@, v@);
            s.push((k, v));
            assert(pair_views(s@) =~= before.push(e));
        },
    }
}

/// The first `n` members that do not equal `v`.
pub open spec fn without_member(s: Seq<ValueView>, v: ValueView, n: nat) -> Seq<ValueView>
    decreases n,
    when n <= s.len()
{
    if n == 0 {
        seq![]
    } else if equal(s[n - 1], v) {
        without_member(s, v, (n - 1) as nat)
    } else {
        without_member(s, v, (n - 1) as nat).push(s[n - 1])
    }
}

pub fn remove_member(s: &Vec<Value>, v: &Value) -> (r: Vec<Value>)
    ensures
        views(r@) == without_member(views(s@), v@, s@.len()),
{
    let mut r: Vec<Value> = Vec::new();
    let mut i: usize = 0;
    assert(views(r@) =~= seq![]);
    while i < s.len()
        invariant
            i <= s@.len(),
            views(r@) == without_member(views(s@), v@, i as nat),
        decreases s@.len() - i,
    {
        let ghost before = views(r@);
        if !s[i].same(v) {
            r.push(s[i].copy());
            assert(views(r@) =~= before.push(views(s@)[i as int]));
        }
        i = i + 1;
    }
    r
}

/// The first `n` entries whose key does not equal `k`.
pub open spec fn without_key(s: Seq<(ValueView, ValueView)>, k: ValueView, n: nat) -> Seq<
    (ValueView, ValueView),
>
    decreases n,
    when n <= s.len()
{
    if n == 0 {
        seq![]
    } else if equal(s[n - 1].0, k) {
        without_key(s, k, (n - 1) as nat)
    } else {
        without_key(s, k, (n - 1) as nat).push(s[n - 1])
    }
}

fn remove_key(s: &Vec<(Value, Value)>, k: &Value) -> (r: Vec<(Value, Value)>)
    ensures
        pair_views(r@) == without_key(pair_views(s@), k@, s@.len()),
{
    let mut r: Vec<(Value, Value)> = Vec::new();
    let mut i: usize = 0;
    assert(pair_views(r@) =~= seq![]);
    while i < s.len()
        invariant
            i <= s@.len(),
            pair_views(r@) == without_key(pair_views(s@), k@, i as nat),
        decreases s@.len() - i,
    {
        let ghost before = pair_views(r@);
        if !s[i].0.same(k) {
            r.push((s[i].0.copy(), s[i].1.copy()));
            assert(pair_views(r@) =~= before.push(pair_views(s@)[i as int]));
        }
        i = i + 1;
    }
    r
}

/// Whether `b` stands somewhere in `a`.
pub open spec fn stands_in(b: Seq<char>, a: Seq<char>) -> bool {
    exists|i: int| 0 <= i <= a.len() - b.len() && #[trigger] a.subrange(i, i + b.len()) == b
}

/// `str::contains` with a text: whether it stands somewhere in the other.
#[verifier::external_body]
fn str_contains(a: &str, b: &str) -> (r: bool)
    ensures
        r == stands_in(b@, a@),
{
    a.contains(b)
}

/// The sum of the elements from the `i`-th on, after `acc`.
pub open spec fn sum_from(s: Seq<ValueView>, i: nat, acc: ValueView) -> Owed
    decreases s.len() - i,
{
    if i >= s.len() {
        Ok(acc)
    } else {
        match binary(BinOp::Add, acc, s[i as int], no_span()) {
            Err(e) => Err(e),
            Ok(v) => sum_from(s, i + 1, v),
        }
    }
}

fn sum(v: &Vec<Value>, init: &Value) -> (r: Result<Value, Error>)
    ensures
        gives(r, sum_from(views(v@), 0, init@)),
{
    let mut acc = init.copy();
    let mut i: usize = 0;
    while i < v.len()
        invariant
            i <= v@.len(),
            sum_from(views(v@), 0, init@) == sum_from(views(v@), i as nat, acc@),
        decreases v@.len() - i,
    {
        acc = match eval_binary(BinOp::Add, &acc, &v[i], Span::default()) {
            Ok(x) => x,
            Err(e) => return Err(e),
        };
        i = i + 1;
    }
    Ok(acc)
}

/// The element that beats all others by a comparison, from the `i`-th on, where
/// `acc` leads.
pub open spec fn best_from(op: BinOp, s: Seq<ValueView>, i: nat, acc: ValueView) -> Owed
    decreases s.len() - i,
{
    if i >= s.len() {
        Ok(acc)
    } else {
        match binary(op, s[i as int], acc, no_span()) {
            Err(e) => Err(e),
            Ok(v) => best_from(op, s, i + 1, if v == ValueView::Bool(true) { s[i as int] } else { acc }),
        }
    }
}

/// The best element, or the default if there is none.
pub open spec fn best(op: BinOp, s: Seq<ValueView>, default: ValueView) -> Owed {
    if s.len() == 0 {
        Ok(default)
    } else {
        best_from(op, s, 1, s[0])
    }
}

fn find_best(op: BinOp, v: &Vec<Value>, default: &Value) -> (r: Result<Value, Error>)
    ensures
        gives(r, best(op, views(v@), default@)),
{
    if v.len() == 0 {
        return Ok(default.copy());
    }
    let mut acc = v[0].copy();
    let mut i: usize = 1;
    while i < v.len()
        invariant
            1 <= i <= v@.len(),
            best(op, views(v@), default@) == best_from(op, views(v@), i as nat, acc@),
        decreases v@.len() - i,
    {
        match eval_binary(op, &v[i], &acc, Span::default()) {
            Ok(Value::Bool(true)) => {
                acc = v[i].copy();
            },
            Ok(_) => {},
            Err(e) => return Err(e),
        }
        i = i + 1;
    }
    Ok(acc)
}

/// Whether a value is one that a JSON text can spell.
pub open spec fn json_like(v: ValueView) -> bool {
    v is Bool || v is Int || v is UInt || v is Float || v is Str || v is Json
}

fn is_json_like(v: &Value) -> (r: bool)
    ensures
        r == json_like(v@),
{
    match v {
        Value::Bool(_) | Value::Int(_) | Value::UInt(_) | Value::Float(_) | Value::Str(_) | Value::Json(_) => true,
        _ => false,
    }
}

fn canonical(v: &Value) -> (r: String)
    ensures
        r@ == value_text(v@),
{
    let mut out = text("");
    write_canonical_value(v, &mut out);
    proof {
        reveal_strlit("");
    }
    assert(out@ =~= value_text(v@));
    out
}

pub open spec fn null() -> ValueView {
    ValueView::Json(JsonView::Null)
}

/// What a JSON value has under a key, or null.
pub open spec fn field_or_null(v: ValueView, key: Seq<char>) -> ValueView {
    match v {
        ValueView::Json(JsonView::Object(s)) => match field_at(s, key, 0) {
            Some(k) => s[k].1,
            None => null(),
        },
        _ => null(),
    }
}

fn get_field_or_null(v: &Value, key: &str) -> (r: Value)
    ensures
        r@ == field_or_null(v@, key@),
{
    match v {
        Value::Json(j) => match j.get_field(key) {
            Some(x) => x.copy(),
            None => Value::Json(Json::Null),
        },
        _ => Value::Json(Json::Null),
    }
}

/// What a JSON value has at a place, or null.
pub open spec fn item_or_null(v: ValueView, i: int) -> ValueView {
    match v {
        ValueView::Json(JsonView::Array(s)) => if 0 <= i < s.len() {
            s[i]
        } else {
            null()
        },
        _ => null(),
    }
}

fn get_item_or_null(v: &Value, i: u64) -> (r: Value)
    ensures
        r@ == item_or_null(v@, i as int),
{
    match v {
        Value::Json(Json::Array(s)) => {
            assert(views(s@).len() == s@.len());
            if i < s.len() as u64 {
                assert(views(s@)[i as int] == value_view(s@[i as int]));
                s[i as usize].copy()
            } else {
                Value::Json(Json::Null)
            }
        },
        _ => Value::Json(Json::Null),
    }
}

/// No array reaches beyond what a machine number can count.
proof fn lemma_no_item(v: &Value, i: int)
    requires
        i > u64::MAX,
    ensures
        item_or_null(value_view(*v), i) == null(),
{
    match *v {
        Value::Json(Json::Array(s)) => {
            assert(views(s@).len() == s@.len());
            assert(s@.len() == s.len());
        },
        _ => {},
    }
}

pub open spec fn range_message(name: Seq<char>, start: int, end: int, len: nat) -> Seq<char> {
    name + ": out-of-range ["@ + decimal_int(start) + ".."@ + decimal_int(end) + "] over len "@ + decimal(
        len,
    )
}

fn range_err(name: &str, start: &BigInt, end: &BigInt, len: usize) -> (r: Error)
    ensures
        r@ == bad(range_message(name@, start@, end@, len as nat)),
{
    let mut m = concat3(name, ": out-of-range [", start.to_string().as_str());
    m.append("..");
    m.append(end.to_string().as_str());
    m.append("] over len ");
    push_decimal(&mut m, len as u128);
    bad_err(m)
}

/// Both ends of a range within a length.
fn in_range(start: &BigInt, end: &BigInt, len: usize) -> (r: Option<(usize, usize)>)
    ensures
        match r {
            Some(p) => p.0 == start@ && p.1 == end@ && 0 <= start@ <= end@ <= len,
            None => !(0 <= start@ <= end@ <= len),
        },
{
    match (start.to_u64(), end.to_u64()) {
        (Some(s), Some(e)) => if s <= e && e <= len as u64 {
            Some((s as usize, e as usize))
        } else {
            None
        },
        _ => None,
    }
}

/// The part of a text between two places among its bytes.
pub open spec fn text_slice(s: Seq<char>, start: int, end: int) -> Owed {
    let b = encode_utf8(s);
    if !(0 <= start <= end <= b.len()) {
        Err(bad(range_message("string_slice"@, start, end, b.len())))
    } else if !is_char_boundary(b, start) || !is_char_boundary(b, end) || !valid_utf8(b.subrange(start, end)) {
        Err(bad("string_slice: indices not on UTF-8 char boundary"@))
    } else {
        Ok(ValueView::Str(decode_utf8(b.subrange(start, end))))
    }
}

fn slice_text(s: &str, start: &BigInt, end: &BigInt) -> (r: Result<Value, Error>)
    ensures
        gives(r, text_slice(s@, start@, end@)),
{
    let b = s.as_bytes();
    assert(b.len() == b@.len());
    match in_range(start, end, b.len()) {
        Some((st, en)) => {
            if !s.is_char_boundary(st) || !s.is_char_boundary(en) {
                return Err(bad_err(text("string_slice: indices not on UTF-8 char boundary")));
            }
            match text_from_utf8(slice_vec(b, st, en)) {
                Some(x) => Ok(Value::Str(x)),
                None => Err(bad_err(text("string_slice: indices not on UTF-8 char boundary"))),
            }
        },
        None => Err(range_err("string_slice", start, end, b.len())),
    }
}

pub open spec fn bytes_slice(b: Seq<u8>, start: int, end: int) -> Owed {
    if !(0 <= start <= end <= b.len()) {
        Err(bad(range_message("bytes_slice"@, start, end, b.len())))
    } else {
        Ok(ValueView::Bytes(b.subrange(start, end)))
    }
}

fn slice_bytes(b: &Vec<u8>, start: &BigInt, end: &BigInt) -> (r: Result<Value, Error>)
    ensures
        gives(r, bytes_slice(b@, start@, end@)),
{
    match in_range(start, end, b.len()) {
        Some((s, e)) => Ok(Value::Bytes(slice_vec(b.as_slice(), s, e))),
        None => Err(range_err("bytes_slice", start, end, b.len())),
    }
}

/// Each byte with its bits turned over.
pub open spec fn complement(b: Seq<u8>) -> Seq<u8> {
    Seq::new(b.len(), |i: int| (255 - b[i]) as u8)
}

fn flip(b: &Vec<u8>) -> (r: Vec<u8>)
    ensures
        r@ == complement(b@),
{
    let mut r: Vec<u8> = Vec::new();
    let mut i: usize = 0;
    while i < b.len()
        invariant
            i <= b@.len(),
            r@.len() == i,
            forall|j: int| 0 <= j < i ==> #[trigger] r@[j] == 255 - b@[j],
        decreases b@.len() - i,
    {
        r.push(255 - b[i]);
        i = i + 1;
    }
    assert(r@ =~= complement(b@));
    r
}

fn big_endian(v: u128, n: usize) -> (r: Vec<u8>)
    ensures
        r@ == be_bytes(v as nat, n as nat),
{
    let mut r: Vec<u8> = Vec::new();
    push_be(&mut r, v, n);
    assert(r@ =~= be_bytes(v as nat, n as nat));
    r
}

fn size(n: usize) -> (r: Value)
    ensures
        r@ == ValueView::Int(n as int),
{
    Value::Int(BigInt::from_u128(n as u128))
}

/// What `parse_json` gives for a text.
pub open spec fn parsed(s: Seq<char>) -> Owed {
    match read_all(encode_utf8(s)) {
        Read::Done(v, _) => Ok(v),
        Read::Fail(m, p) => Err(bad("JSON parse error at "@ + decimal(p as nat) + ": "@ + m)),
    }
}

fn parse_text(s: &str) -> (r: Result<Value, Error>)
    ensures
        gives(r, parsed(s@)),
{
    match parse(s) {
        Ok(v) => Ok(v),
        Err(e) => Err(bad_err(e.to_string())),
    }
}

/// `set_insert(set, elem)`
pub open spec fn set_insert_gives(args: Seq<ValueView>) -> Owed {
    if args.len() == 2 {
        match args[0] {
            ValueView::SetOf(s) => Ok(ValueView::SetOf(with_member(s, args[1]))),
            _ => Err(bad("set_insert(set, elem)"@)),
        }
    } else {
        Err(bad("set_insert(set, elem)"@))
    }
}

fn call_set_insert(args: &Vec<Value>) -> (r: Result<Value, Error>)
    ensures
        gives(r, set_insert_gives(views(args@))),
{
    let ghost vs = views(args@);
    assert(vs.len() == args@.len());
    if args.len() == 2 {
        match &args[0] {
            Value::SetOf(s) => {
                let mut t = copy_values(s);
                add_member(&mut t, args[1].copy());
                Ok(Value::SetOf(t))
            },
            _ => Err(bad_err(text("set_insert(set, elem)"))),
        }
    } else {
        Err(bad_err(text("set_insert(set, elem)")))
    }
}

/// `set_remove(set, elem)`
pub open spec fn set_remove_gives(args: Seq<ValueView>) -> Owed {
    if args.len() == 2 {
        match args[0] {
            ValueView::SetOf(s) => Ok(ValueView::SetOf(without_member(s, args[1], s.len()))),
            _ => Err(bad("set_remove(set, elem)"@)),
        }
    } else {
        Err(bad("set_remove(set, elem)"@))
    }
}

fn call_set_remove(args: &Vec<Value>) -> (r: Result<Value, Error>)
    ensures
        gives(r, set_remove_gives(views(args@))),
{
    let ghost vs = views(args@);
    assert(vs.len() == args@.len());
    if args.len() == 2 {
        match &args[0] {
            Value::SetOf(s) => Ok(Value::SetOf(remove_member(s, &args[1]))),
            _ => Err(bad_err(text("set_remove(set, elem)"))),
        }
    } else {
        Err(bad_err(text("set_remove(set, elem)")))
    }
}

/// `set_contains(set, elem)`
pub open spec fn set_contains_gives(args: Seq<ValueView>) -> Owed {
    if args.len() == 2 {
        match args[0] {
            ValueView::SetOf(s) => Ok(ValueView::Bool(member_at(s, args[1], 0) is Some)),
            _ => Err(bad("set_contains(set, elem)"@)),
        }
    } else {
        Err(bad("set_contains(set, elem)"@))
    }
}

fn call_set_contains(args: &Vec<Value>) -> (r: Result<Value, Error>)
    ensures
        gives(r, set_contains_gives(views(args@))),
{
    let ghost vs = views(args@);
    assert(vs.len() == args@.len());
    if args.len() == 2 {
        match &args[0] {
            Value::SetOf(s) => Ok(Value::Bool(find_member(s, &args[1]).is_some())),
            _ => Err(bad_err(text("set_contains(set, elem)"))),
        }
    } else {
        Err(bad_err(text("set_contains(set, elem)")))
    }
}

/// `set_len(set)`
pub open spec fn set_len_gives(args: Seq<ValueView>) -> Owed {
    if args.len() == 1 {
        match args[0] {
            ValueView::SetOf(s) => Ok(ValueView::Int(s.len() as int)),
            _ => Err(bad("set_len(set)"@)),
        }
    } else {
        Err(bad("set_len(set)"@))
    }
}

fn call_set_len(args: &Vec<Value>) -> (r: Result<Value, Error>)
    ensures
        gives(r, set_len_gives(views(args@))),
{
    let ghost vs = views(args@);
    assert(vs.len() == args@.len());
    if args.len() == 1 {
        match &args[0] {
            Value::SetOf(s) => {
                assert(views(s@).len() == s@.len());
                Ok(size(s.len()))
            },
            _ => Err(bad_err(text("set_len(set)"))),
        }
    } else {
        Err(bad_err(text("set_len(set)")))
    }
}

/// `dict_set(dict, key, value)`
pub open spec fn dict_set_gives(args: Seq<ValueView>) -> Owed {
    if args.len() == 3 {
        match args[0] {
            ValueView::Dict(d) => Ok(ValueView::Dict(with_entry(d, args[1], args[2]))),
            _ => Err(bad("dict_set(dict, key, value)"@)),
        }
    } else {
        Err(bad("dict_set(dict, key, value)"@))
    }
}

fn call_dict_set(args: &Vec<Value>) -> (r: Result<Value, Error>)
    ensures
        gives(r, dict_set_gives(views(args@))),
{
    let ghost vs = views(args@);
    assert(vs.len() == args@.len());
    if args.len() == 3 {
        match &args[0] {
            Value::Dict(d) => {
                let mut t = copy_pairs(d);
                add_entry(&mut t, args[1].copy(), args[2].copy());
                Ok(Value::Dict(t))
            },
            _ => Err(bad_err(text("dict_set(dict, key, value)"))),
        }
    } else {
        Err(bad_err(text("dict_set(dict, key, value)")))
    }
}

/// `dict_remove(dict, key)`
pub open spec fn dict_remove_gives(args: Seq<ValueView>) -> Owed {
    if args.len() == 2 {
        match args[0] {
            ValueView::Dict(d) => Ok(ValueView::Dict(without_key(d, args[1], d.len()))),
            _ => Err(bad("dict_remove(dict, key)"@)),
        }
    } else {
        Err(bad("dict_remove(dict, key)"@))
    }
}

fn call_dict_remove(args: &Vec<Value>) -> (r: Result<Value, Error>)
    ensures
        gives(r, dict_remove_gives(views(args@))),
{
    let ghost vs = views(args@);
    assert(vs.len() == args@.len());
    if args.len() == 2 {
        match &args[0] {
            Value::Dict(d) => Ok(Value::Dict(remove_key(d, &args[1]))),
            _ => Err(bad_err(text("dict_remove(dict, key)"))),
        }
    } else {
        Err(bad_err(text("dict_remove(dict, key)")))
    }
}

/// `dict_get(dict, key, default)`
pub open spec fn dict_get_gives(args: Seq<ValueView>) -> Owed {
    if args.len() == 3 {
        match args[0] {
            ValueView::Dict(d) => Ok(match key_at(d, args[1], 0) {
                Some(k) => d[k].1,
                None => args[2],
            }),
            _ => Err(bad("dict_get(dict, key, default)"@)),
        }
    } else {
        Err(bad("dict_get(dict, key, default)"@))
    }
}

fn call_dict_get(args: &Vec<Value>) -> (r: Result<Value, Error>)
    ensures
        gives(r, dict_get_gives(views(args@))),
{
    let ghost vs = views(args@);
    assert(vs.len() == args@.len());
    if args.len() == 3 {
        match &args[0] {
            Value::Dict(d) => match find_key(d, &args[1]) {
                Some(k) => Ok(d[k].1.copy()),
                None => Ok(args[2].copy()),
            },
            _ => Err(bad_err(text("dict_get(dict, key, default)"))),
        }
    } else {
        Err(bad_err(text("dict_get(dict, key, default)")))
    }
}

/// `dict_has(dict, key)`
pub open spec fn dict_has_gives(args: Seq<ValueView>) -> Owed {
    if args.len() == 2 {
        match args[0] {
            ValueView::Dict(d) => Ok(ValueView::Bool(key_at(d, args[1], 0) is Some)),
            _ => Err(bad("dict_has(dict, key)"@)),
        }
    } else {
        Err(bad("dict_has(dict, key)"@))
    }
}

fn call_dict_has(args: &Vec<Value>) -> (r: Result<Value, Error>)
    ensures
        gives(r, dict_has_gives(views(args@))),
{
    let ghost vs = views(args@);
    assert(vs.len() == args@.len());
    if args.len() == 2 {
        match &args[0] {
            Value::Dict(d) => Ok(Value::Bool(find_key(d, &args[1]).is_some())),
            _ => Err(bad_err(text("dict_has(dict, key)"))),
        }
    } else {
        Err(bad_err(text("dict_has(dict, key)")))
    }
}

/// `dict_len(dict)`
pub open spec fn dict_len_gives(args: Seq<ValueView>) -> Owed {
    if args.len() == 1 {
        match args[0] {
            ValueView::Dict(d) => Ok(ValueView::Int(d.len() as int)),
            _ => Err(bad("dict_len(dict)"@)),
        }
    } else {
        Err(bad("dict_len(dict)"@))
    }
}

fn call_dict_len(args: &Vec<Value>) -> (r: Result<Value, Error>)
    ensures
        gives(r, dict_len_gives(views(args@))),
{
    let ghost vs = views(args@);
    assert(vs.len() == args@.len());
    if args.len() == 1 {
        match &args[0] {
            Value::Dict(d) => {
                assert(pair_views(d@).len() == d@.len());
                Ok(size(d.len()))
            },
            _ => Err(bad_err(text("dict_len(dict)"))),
        }
    } else {
        Err(bad_err(text("dict_len(dict)")))
    }
}

/// `to_bytes(string)`
pub open spec fn to_bytes_gives(args: Seq<ValueView>) -> Owed {
    if args.len() == 1 {
        match args[0] {
            ValueView::Str(s) => Ok(ValueView::Bytes(encode_utf8(s))),
            _ => Err(bad("to_bytes(string)"@)),
        }
    } else {
        Err(bad("to_bytes(string)"@))
    }
}

fn call_to_bytes(args: &Vec<Value>) -> (r: Result<Value, Error>)
    ensures
        gives(r, to_bytes_gives(views(args@))),
{
    let ghost vs = views(args@);
    assert(vs.len() == args@.len());
    if args.len() == 1 {
        match &args[0] {
            Value::Str(s) => {
                let mut b: Vec<u8> = Vec::new();
                push_all(&mut b, s.as_str().as_bytes());
                assert(b@ =~= encode_utf8(s@));
                Ok(Value::Bytes(b))
            },
            _ => Err(bad_err(text("to_bytes(string)"))),
        }
    } else {
        Err(bad_err(text("to_bytes(string)")))
    }
}

/// `string_concat(string, string)`
pub open spec fn string_concat_gives(args: Seq<ValueView>) -> Owed {
    if args.len() == 2 {
        match (args[0], args[1]) {
            (ValueView::Str(a), ValueView::Str(b)) => Ok(ValueView::Str(a + b)),
            _ => Err(bad("string_concat(string, string)"@)),
        }
    } else {
        Err(bad("string_concat(string, string)"@))
    }
}

fn call_string_concat(args: &Vec<Value>) -> (r: Result<Value, Error>)
    ensures
        gives(r, string_concat_gives(views(args@))),
{
    let ghost vs = views(args@);
    assert(vs.len() == args@.len());
    if args.len() == 2 {
        match (&args[0], &args[1]) {
            (Value::Str(a), Value::Str(b)) => Ok(Value::Str(concat2(a.as_str(), b.as_str()))),
            _ => Err(bad_err(text("string_concat(string, string)"))),
        }
    } else {
        Err(bad_err(text("string_concat(string, string)")))
    }
}

/// `string_slice(string, start: i64, end: i64)`
pub open spec fn string_slice_gives(args: Seq<ValueView>) -> Owed {
    if args.len() == 3 {
        match (args[0], args[1], args[2]) {
            (ValueView::Str(s), ValueView::Int(start), ValueView::Int(end)) => text_slice(s, start, end),
            _ => Err(bad("string_slice(string, start: i64, end: i64)"@)),
        }
    } else {
        Err(bad("string_slice(string, start: i64, end: i64)"@))
    }
}

fn call_string_slice(args: &Vec<Value>) -> (r: Result<Value, Error>)
    ensures
        gives(r, string_slice_gives(views(args@))),
{
    let ghost vs = views(args@);
    assert(vs.len() == args@.len());
    if args.len() == 3 {
        match (&args[0], &args[1], &args[2]) {
            (Value::Str(s), Value::Int(start), Value::Int(end)) => slice_text(s.as_str(), start, end),
            _ => Err(bad_err(text("string_slice(string, start: i64, end: i64)"))),
        }
    } else {
        Err(bad_err(text("string_slice(string, start: i64, end: i64)")))
    }
}

/// `string_contains(haystack, needle)`
pub open spec fn string_contains_gives(args: Seq<ValueView>) -> Owed {
    if args.len() == 2 {
        match (args[0], args[1]) {
            (ValueView::Str(a), ValueView::Str(b)) => Ok(ValueView::Bool(stands_in(b, a))),
            _ => Err(bad("string_contains(haystack, needle)"@)),
        }
    } else {
        Err(bad("string_contains(haystack, needle)"@))
    }
}

fn call_string_contains(args: &Vec<Value>) -> (r: Result<Value, Error>)
    ensures
        gives(r, string_contains_gives(views(args@))),
{
    let ghost vs = views(args@);
    assert(vs.len() == args@.len());
    if args.len() == 2 {
        match (&args[0], &args[1]) {
            (Value::Str(a), Value::Str(b)) => Ok(Value::Bool(str_contains(a.as_str(), b.as_str()))),
            _ => Err(bad_err(text("string_contains(haystack, needle)"))),
        }
    } else {
        Err(bad_err(text("string_contains(haystack, needle)")))
    }
}

/// `bytes_len(bytes)`
pub open spec fn bytes_len_gives(args: Seq<ValueView>) -> Owed {
    if args.len() == 1 {
        match args[0] {
            ValueView::Bytes(b) => Ok(ValueView::Int(b.len() as int)),
            _ => Err(bad("bytes_len(bytes)"@)),
        }
    } else {
        Err(bad("bytes_len(bytes)"@))
    }
}

fn call_bytes_len(args: &Vec<Value>) -> (r: Result<Value, Error>)
    ensures
        gives(r, bytes_len_gives(views(args@))),
{
    let ghost vs = views(args@);
    assert(vs.len() == args@.len());
    if args.len() == 1 {
        match &args[0] {
            Value::Bytes(b) => Ok(size(b.len())),
            _ => Err(bad_err(text("bytes_len(bytes)"))),
        }
    } else {
        Err(bad_err(text("bytes_len(bytes)")))
    }
}

/// `bytes_concat(bytes, bytes)`
pub open spec fn bytes_concat_gives(args: Seq<ValueView>) -> Owed {
    if args.len() == 2 {
        match (args[0], args[1]) {
            (ValueView::Bytes(a), ValueView::Bytes(b)) => Ok(ValueView::Bytes(a + b)),
            _ => Err(bad("bytes_concat(bytes, bytes)"@)),
        }
    } else {
        Err(bad("bytes_concat(bytes, bytes)"@))
    }
}

fn call_bytes_concat(args: &Vec<Value>) -> (r: Result<Value, Error>)
    ensures
        gives(r, bytes_concat_gives(views(args@))),
{
    let ghost vs = views(args@);
    assert(vs.len() == args@.len());
    if args.len() == 2 {
        match (&args[0], &args[1]) {
            (Value::Bytes(a), Value::Bytes(b)) => {
                let mut c: Vec<u8> = Vec::new();
                push_all(&mut c, a.as_slice());
                push_all(&mut c, b.as_slice());
                assert(c@ =~= a@ + b@);
                Ok(Value::Bytes(c))
            },
            _ => Err(bad_err(text("bytes_concat(bytes, bytes)"))),
        }
    } else {
        Err(bad_err(text("bytes_concat(bytes, bytes)")))
    }
}

/// `bytes_eq(bytes, bytes)`
pub open spec fn bytes_eq_gives(args: Seq<ValueView>) -> Owed {
    if args.len() == 2 {
        match (args[0], args[1]) {
            (ValueView::Bytes(a), ValueView::Bytes(b)) => Ok(ValueView::Bool(a == b)),
            _ => Err(bad("bytes_eq(bytes, bytes)"@)),
        }
    } else {
        Err(bad("bytes_eq(bytes, bytes)"@))
    }
}

fn call_bytes_eq(args: &Vec<Value>) -> (r: Result<Value, Error>)
    ensures
        gives(r, bytes_eq_gives(views(args@))),
{
    let ghost vs = views(args@);
    assert(vs.len() == args@.len());
    if args.len() == 2 {
        match (&args[0], &args[1]) {
            (Value::Bytes(a), Value::Bytes(b)) => Ok(Value::Bool(args[0].same(&args[1]))),
            _ => Err(bad_err(text("bytes_eq(bytes, bytes)"))),
        }
    } else {
        Err(bad_err(text("bytes_eq(bytes, bytes)")))
    }
}

/// `bytes_slice(bytes, start: i64, end: i64)`
pub open spec fn bytes_slice_gives(args: Seq<ValueView>) -> Owed {
    if args.len() == 3 {
        match (args[0], args[1], args[2]) {
            (ValueView::Bytes(b), ValueView::Int(start), ValueView::Int(end)) => bytes_slice(b, start, end),
            _ => Err(bad("bytes_slice(bytes, start: i64, end: i64)"@)),
        }
    } else {
        Err(bad("bytes_slice(bytes, start: i64, end: i64)"@))
    }
}

fn call_bytes_slice(args: &Vec<Value>) -> (r: Result<Value, Error>)
    ensures
        gives(r, bytes_slice_gives(views(args@))),
{
    let ghost vs = views(args@);
    assert(vs.len() == args@.len());
    if args.len() == 3 {
        match (&args[0], &args[1], &args[2]) {
            (Value::Bytes(b), Value::Int(start), Value::Int(end)) => slice_bytes(b, start, end),
            _ => Err(bad_err(text("bytes_slice(bytes, start: i64, end: i64)"))),
        }
    } else {
        Err(bad_err(text("bytes_slice(bytes, start: i64, end: i64)")))
    }
}

/// `to_be_bytes(u32|u64|u128)`
pub open spec fn to_be_bytes_gives(args: Seq<ValueView>) -> Owed {
    if args.len() == 1 {
        match args[0] {
            ValueView::U32(n) => Ok(ValueView::Bytes(be_bytes(n as nat, 4))),
            ValueView::U64(n) => Ok(ValueView::Bytes(be_bytes(n as nat, 8))),
            ValueView::U128(n) => Ok(ValueView::Bytes(be_bytes(n as nat, 16))),
            _ => Err(bad("to_be_bytes(u32|u64|u128)"@)),
        }
    } else {
        Err(bad("to_be_bytes(u32|u64|u128)"@))
    }
}

fn call_to_be_bytes(args: &Vec<Value>) -> (r: Result<Value, Error>)
    ensures
        gives(r, to_be_bytes_gives(views(args@))),
{
    let ghost vs = views(args@);
    assert(vs.len() == args@.len());
    if args.len() == 1 {
        match &args[0] {
            Value::U32(n) => Ok(Value::Bytes(big_endian(*n as u128, 4))),
            Value::U64(n) => Ok(Value::Bytes(big_endian(*n as u128, 8))),
            Value::U128(n) => Ok(Value::Bytes(big_endian(*n, 16))),
            _ => Err(bad_err(text("to_be_bytes(u32|u64|u128)"))),
        }
    } else {
        Err(bad_err(text("to_be_bytes(u32|u64|u128)")))
    }
}

/// `bit_not_bytes(bytes)`
pub open spec fn bit_not_bytes_gives(args: Seq<ValueView>) -> Owed {
    if args.len() == 1 {
        match args[0] {
            ValueView::Bytes(b) => Ok(ValueView::Bytes(complement(b))),
            _ => Err(bad("bit_not_bytes(bytes)"@)),
        }
    } else {
        Err(bad("bit_not_bytes(bytes)"@))
    }
}

fn call_bit_not_bytes(args: &Vec<Value>) -> (r: Result<Value, Error>)
    ensures
        gives(r, bit_not_bytes_gives(views(args@))),
{
    let ghost vs = views(args@);
    assert(vs.len() == args@.len());
    if args.len() == 1 {
        match &args[0] {
            Value::Bytes(b) => Ok(Value::Bytes(flip(b))),
            _ => Err(bad_err(text("bit_not_bytes(bytes)"))),
        }
    } else {
        Err(bad_err(text("bit_not_bytes(bytes)")))
    }
}

/// `assert(cond: bool [, msg: string])`
pub open spec fn assert_gives(args: Seq<ValueView>) -> Owed {
    if args.len() == 1 {
        match args[0] {
            ValueView::Bool(c) => if c {
                Ok(ValueView::Unit)
            } else {
                Err(bad("assertion failed"@))
            },
            _ => Err(bad("assert(cond: bool [, msg: string])"@)),
        }
    } else if args.len() == 2 {
        match (args[0], args[1]) {
            (ValueView::Bool(c), ValueView::Str(m)) => if c {
                Ok(ValueView::Unit)
            } else {
                Err(bad("assertion failed: "@ + m))
            },
            _ => Err(bad("assert(cond: bool [, msg: string])"@)),
        }
    } else {
        Err(bad("assert(cond: bool [, msg: string])"@))
    }
}

fn call_assert(args: &Vec<Value>) -> (r: Result<Value, Error>)
    ensures
        gives(r, assert_gives(views(args@))),
{
    let ghost vs = views(args@);
    assert(vs.len() == args@.len());
    if args.len() == 1 {
        match &args[0] {
            Value::Bool(c) => if *c {
                Ok(Value::Unit)
            } else {
                Err(bad_err(text("assertion failed")))
            },
            _ => Err(bad_err(text("assert(cond: bool [, msg: string])"))),
        }
    } else if args.len() == 2 {
        match (&args[0], &args[1]) {
            (Value::Bool(c), Value::Str(m)) => if *c {
                Ok(Value::Unit)
            } else {
                Err(bad_err(concat2("assertion failed: ", m.as_str())))
            },
            _ => Err(bad_err(text("assert(cond: bool [, msg: string])"))),
        }
    } else {
        Err(bad_err(text("assert(cond: bool [, msg: string])")))
    }
}

/// `sum(array, init)`
pub open spec fn sum_gives(args: Seq<ValueView>) -> Owed {
    if args.len() == 2 {
        match args[0] {
            ValueView::Array(s) => sum_from(s, 0, args[1]),
            _ => Err(bad("sum(array, init)"@)),
        }
    } else {
        Err(bad("sum(array, init)"@))
    }
}

fn call_sum(args: &Vec<Value>) -> (r: Result<Value, Error>)
    ensures
        gives(r, sum_gives(views(args@))),
{
    let ghost vs = views(args@);
    assert(vs.len() == args@.len());
    if args.len() == 2 {
        match &args[0] {
            Value::Array(s) => sum(s, &args[1]),
            _ => Err(bad_err(text("sum(array, init)"))),
        }
    } else {
        Err(bad_err(text("sum(array, init)")))
    }
}

/// `max(array, default_if_empty)`
pub open spec fn max_gives(args: Seq<ValueView>) -> Owed {
    if args.len() == 2 {
        match args[0] {
            ValueView::Array(s) => best(BinOp::Gt, s, args[1]),
            _ => Err(bad("max(array, default_if_empty)"@)),
        }
    } else {
        Err(bad("max(array, default_if_empty)"@))
    }
}

fn call_max(args: &Vec<Value>) -> (r: Result<Value, Error>)
    ensures
        gives(r, max_gives(views(args@))),
{
    let ghost vs = views(args@);
    assert(vs.len() == args@.len());
    if args.len() == 2 {
        match &args[0] {
            Value::Array(s) => find_best(BinOp::Gt, s, &args[1]),
            _ => Err(bad_err(text("max(array, default_if_empty)"))),
        }
    } else {
        Err(bad_err(text("max(array, default_if_empty)")))
    }
}

/// `min(array, default_if_empty)`
pub open spec fn min_gives(args: Seq<ValueView>) -> Owed {
    if args.len() == 2 {
        match args[0] {
            ValueView::Array(s) => best(BinOp::Lt, s, args[1]),
            _ => Err(bad("min(array, default_if_empty)"@)),
        }
    } else {
        Err(bad("min(array, default_if_empty)"@))
    }
}

fn call_min(args: &Vec<Value>) -> (r: Result<Value, Error>)
    ensures
        gives(r, min_gives(views(args@))),
{
    let ghost vs = views(args@);
    assert(vs.len() == args@.len());
    if args.len() == 2 {
        match &args[0] {
            Value::Array(s) => find_best(BinOp::Lt, s, &args[1]),
            _ => Err(bad_err(text("min(array, default_if_empty)"))),
        }
    } else {
        Err(bad_err(text("min(array, default_if_empty)")))
    }
}

/// `parse_json(string)`
pub open spec fn parse_json_gives(args: Seq<ValueView>) -> Owed {
    if args.len() == 1 {
        match args[0] {
            ValueView::Str(s) => parsed(s),
            _ => Err(bad("parse_json(string)"@)),
        }
    } else {
        Err(bad("parse_json(string)"@))
    }
}

fn call_parse_json(args: &Vec<Value>) -> (r: Result<Value, Error>)
    ensures
        gives(r, parse_json_gives(views(args@))),
{
    let ghost vs = views(args@);
    assert(vs.len() == args@.len());
    if args.len() == 1 {
        match &args[0] {
            Value::Str(s) => parse_text(s.as_str()),
            _ => Err(bad_err(text("parse_json(string)"))),
        }
    } else {
        Err(bad_err(text("parse_json(string)")))
    }
}

/// `json_stringify(json)`
pub open spec fn json_stringify_gives(args: Seq<ValueView>) -> Owed {
    if args.len() == 1 && json_like(args[0]) {
        Ok(ValueView::Str(value_text(args[0])))
    } else {
        Err(bad("json_stringify(json)"@))
    }
}

fn call_json_stringify(args: &Vec<Value>) -> (r: Result<Value, Error>)
    ensures
        gives(r, json_stringify_gives(views(args@))),
{
    let ghost vs = views(args@);
    assert(vs.len() == args@.len());
    if args.len() == 1 && is_json_like(&args[0]) {
        Ok(Value::Str(canonical(&args[0])))
    } else {
        Err(bad_err(text("json_stringify(json)")))
    }
}

/// `json_get_field(json, string)`
pub open spec fn json_get_field_gives(args: Seq<ValueView>) -> Owed {
    if args.len() == 2 && json_like(args[0]) {
        match args[1] {
            ValueView::Str(k) => Ok(field_or_null(args[0], k)),
            _ => Err(bad("json_get_field(json, string)"@)),
        }
    } else {
        Err(bad("json_get_field(json, string)"@))
    }
}

fn call_json_get_field(args: &Vec<Value>) -> (r: Result<Value, Error>)
    ensures
        gives(r, json_get_field_gives(views(args@))),
{
    let ghost vs = views(args@);
    assert(vs.len() == args@.len());
    if args.len() == 2 && is_json_like(&args[0]) {
        match &args[1] {
            Value::Str(k) => Ok(get_field_or_null(&args[0], k.as_str())),
            _ => Err(bad_err(text("json_get_field(json, string)"))),
        }
    } else {
        Err(bad_err(text("json_get_field(json, string)")))
    }
}

/// `json_get_index(json, i64|u64)`
pub open spec fn json_get_index_gives(args: Seq<ValueView>) -> Owed {
    if args.len() == 2 && json_like(args[0]) {
        match args[1] {
            ValueView::Int(i) => if i >= 0 {
                Ok(item_or_null(args[0], i))
            } else {
                Err(bad("json_get_index(json, i64|u64)"@))
            },
            ValueView::U64(i) => Ok(item_or_null(args[0], i as int)),
            _ => Err(bad("json_get_index(json, i64|u64)"@)),
        }
    } else {
        Err(bad("json_get_index(json, i64|u64)"@))
    }
}

fn call_json_get_index(args: &Vec<Value>) -> (r: Result<Value, Error>)
    ensures
        gives(r, json_get_index_gives(views(args@))),
{
    let ghost vs = views(args@);
    assert(vs.len() == args@.len());
    if args.len() == 2 && is_json_like(&args[0]) {
        match &args[1] {
            Value::Int(i) => match i.to_u64() {
                Some(n) => Ok(get_item_or_null(&args[0], n)),
                None => if i.less(&BigInt::from_i64(0)) {
                    Err(bad_err(text("json_get_index(json, i64|u64)")))
                } else {
                    proof {
                        lemma_no_item(&args[0], i@);
                    }
                    Ok(Value::Json(Json::Null))
                },
            },
            Value::U64(i) => Ok(get_item_or_null(&args[0], *i)),
            _ => Err(bad_err(text("json_get_index(json, i64|u64)"))),
        }
    } else {
        Err(bad_err(text("json_get_index(json, i64|u64)")))
    }
}

/// `json_to_string(json)`
pub open spec fn json_to_string_gives(args: Seq<ValueView>) -> Owed {
    if args.len() == 1 && json_like(args[0]) {
        match args[0] {
            ValueView::Str(s) => Ok(ValueView::Str(s)),
            _ => Err(bad("json_to_string: value is not a string: "@ + value_text(args[0]))),
        }
    } else {
        Err(bad("json_to_string(json)"@))
    }
}

fn call_json_to_string(args: &Vec<Value>) -> (r: Result<Value, Error>)
    ensures
        gives(r, json_to_string_gives(views(args@))),
{
    let ghost vs = views(args@);
    assert(vs.len() == args@.len());
    if args.len() == 1 && is_json_like(&args[0]) {
        match &args[0] {
            Value::Str(s) => Ok(Value::Str(s.clone())),
            _ => Err(bad_err(concat2("json_to_string: value is not a string: ", canonical(&args[0]).as_str()))),
        }
    } else {
        Err(bad_err(text("json_to_string(json)")))
    }
}

/// `json_to_i64(json)`
pub open spec fn json_to_i64_gives(args: Seq<ValueView>) -> Owed {
    if args.len() == 1 && json_like(args[0]) {
        match args[0] {
            ValueView::Int(n) => if i64::MIN <= n <= i64::MAX {
                Ok(ValueView::Int(n))
            } else {
                Err(bad("json_to_i64: value is not an i64-compatible number: "@ + value_text(args[0])))
            },
            _ => Err(bad("json_to_i64: value is not an i64-compatible number: "@ + value_text(args[0]))),
        }
    } else {
        Err(bad("json_to_i64(json)"@))
    }
}

fn call_json_to_i64(args: &Vec<Value>) -> (r: Result<Value, Error>)
    ensures
        gives(r, json_to_i64_gives(views(args@))),
{
    let ghost vs = views(args@);
    assert(vs.len() == args@.len());
    if args.len() == 1 && is_json_like(&args[0]) {
        match &args[0] {
            Value::Int(n) => if n.to_i64().is_some() {
                Ok(Value::Int(n.copy()))
            } else {
                Err(bad_err(concat2("json_to_i64: value is not an i64-compatible number: ", canonical(&args[0]).as_str())))
            },
            _ => Err(bad_err(concat2("json_to_i64: value is not an i64-compatible number: ", canonical(&args[0]).as_str()))),
        }
    } else {
        Err(bad_err(text("json_to_i64(json)")))
    }
}

/// `json_to_u64(json)`
pub open spec fn json_to_u64_gives(args: Seq<ValueView>) -> Owed {
    if args.len() == 1 && json_like(args[0]) {
        match args[0] {
            ValueView::Int(n) => if 0 <= n <= u64::MAX {
                Ok(ValueView::U64(n as u64))
            } else {
                Err(bad("json_to_u64: value is not a non-negative number: "@ + value_text(args[0])))
            },
            _ => Err(bad("json_to_u64: value is not a non-negative number: "@ + value_text(args[0]))),
        }
    } else {
        Err(bad("json_to_u64(json)"@))
    }
}

fn call_json_to_u64(args: &Vec<Value>) -> (r: Result<Value, Error>)
    ensures
        gives(r, json_to_u64_gives(views(args@))),
{
    let ghost vs = views(args@);
    assert(vs.len() == args@.len());
    if args.len() == 1 && is_json_like(&args[0]) {
        match &args[0] {
            Value::Int(n) => match n.to_u64() {
                Some(k) => Ok(Value::U64(k)),
                None => Err(bad_err(concat2("json_to_u64: value is not a non-negative number: ", canonical(&args[0]).as_str()))),
            },
            _ => Err(bad_err(concat2("json_to_u64: value is not a non-negative number: ", canonical(&args[0]).as_str()))),
        }
    } else {
        Err(bad_err(text("json_to_u64(json)")))
    }
}

/// `json_to_bool(json)`
pub open spec fn json_to_bool_gives(args: Seq<ValueView>) -> Owed {
    if args.len() == 1 && json_like(args[0]) {
        match args[0] {
            ValueView::Bool(b) => Ok(ValueView::Bool(b)),
            _ => Err(bad("json_to_bool: value is not a bool: "@ + value_text(args[0]))),
        }
    } else {
        Err(bad("json_to_bool(json)"@))
    }
}

fn call_json_to_bool(args: &Vec<Value>) -> (r: Result<Value, Error>)
    ensures
        gives(r, json_to_bool_gives(views(args@))),
{
    let ghost vs = views(args@);
    assert(vs.len() == args@.len());
    if args.len() == 1 && is_json_like(&args[0]) {
        match &args[0] {
            Value::Bool(b) => Ok(Value::Bool(*b)),
            _ => Err(bad_err(concat2("json_to_bool: value is not a bool: ", canonical(&args[0]).as_str()))),
        }
    } else {
        Err(bad_err(text("json_to_bool(json)")))
    }
}

/// `json_is_null(json)`
pub open spec fn json_is_null_gives(args: Seq<ValueView>) -> Owed {
    if args.len() == 1 && json_like(args[0]) {
        Ok(ValueView::Bool(args[0] == null()))
    } else {
        Err(bad("json_is_null(json)"@))
    }
}

fn call_json_is_null(args: &Vec<Value>) -> (r: Result<Value, Error>)
    ensures
        gives(r, json_is_null_gives(views(args@))),
{
    let ghost vs = views(args@);
    assert(vs.len() == args@.len());
    if args.len() == 1 && is_json_like(&args[0]) {
        match &args[0] {
            Value::Json(Json::Null) => Ok(Value::Bool(true)),
            _ => Ok(Value::Bool(false)),
        }
    } else {
        Err(bad_err(text("json_is_null(json)")))
    }
}

/// What a builtin function gives on its arguments.
pub open spec fn builtin_gives(name: Seq<char>, args: Seq<ValueView>) -> Owed {
    if name == "set_insert"@ {
        set_insert_gives(args)
    } else if name == "set_remove"@ {
        set_remove_gives(args)
    } else if name == "set_contains"@ {
        set_contains_gives(args)
    } else if name == "set_len"@ {
        set_len_gives(args)
    } else if name == "dict_set"@ {
        dict_set_gives(args)
    } else if name == "dict_remove"@ {
        dict_remove_gives(args)
    } else if name == "dict_get"@ {
        dict_get_gives(args)
    } else if name == "dict_has"@ {
        dict_has_gives(args)
    } else if name == "dict_len"@ {
        dict_len_gives(args)
    } else if name == "to_bytes"@ {
        to_bytes_gives(args)
    } else if name == "string_concat"@ {
        string_concat_gives(args)
    } else if name == "string_slice"@ {
        string_slice_gives(args)
    } else if name == "string_contains"@ {
        string_contains_gives(args)
    } else if name == "bytes_len"@ {
        bytes_len_gives(args)
    } else if name == "bytes_concat"@ {
        bytes_concat_gives(args)
    } else if name == "bytes_eq"@ {
        bytes_eq_gives(args)
    } else if name == "bytes_slice"@ {
        bytes_slice_gives(args)
    } else if name == "to_be_bytes"@ {
        to_be_bytes_gives(args)
    } else if name == "bit_not_bytes"@ {
        bit_not_bytes_gives(args)
    } else if name == "assert"@ {
        assert_gives(args)
    } else if name == "sum"@ {
        sum_gives(args)
    } else if name == "max"@ {
        max_gives(args)
    } else if name == "min"@ {
        min_gives(args)
    } else if name == "parse_json"@ {
        parse_json_gives(args)
    } else if name == "json_stringify"@ {
        json_stringify_gives(args)
    } else if name == "json_get_field"@ {
        json_get_field_gives(args)
    } else if name == "json_get_index"@ {
        json_get_index_gives(args)
    } else if name == "json_to_string"@ {
        json_to_string_gives(args)
    } else if name == "json_to_i64"@ {
        json_to_i64_gives(args)
    } else if name == "json_to_u64"@ {
        json_to_u64_gives(args)
    } else if name == "json_to_bool"@ {
        json_to_bool_gives(args)
    } else if name == "json_is_null"@ {
        json_is_null_gives(args)
    } else {
        Err(bad("unknown builtin '"@ + name + "'"@))
    }
}

/// Calls a builtin function by its name.
#[verifier::rlimit(30)]
pub fn call_builtin(name: &str, args: &Vec<Value>) -> (r: Result<Value, Error>)
    ensures
        gives(r, builtin_gives(name@, views(args@))),
{
    if same(name, "set_insert") {
        call_set_insert(args)
    } else if same(name, "set_remove") {
        call_set_remove(args)
    } else if same(name, "set_contains") {
        call_set_contains(args)
    } else if same(name, "set_len") {
        call_set_len(args)
    } else if same(name, "dict_set") {
        call_dict_set(args)
    } else if same(name, "dict_remove") {
        call_dict_remove(args)
    } else if same(name, "dict_get") {
        call_dict_get(args)
    } else if same(name, "dict_has") {
        call_dict_has(args)
    } else if same(name, "dict_len") {
        call_dict_len(args)
    } else if same(name, "to_bytes") {
        call_to_bytes(args)
    } else if same(name, "string_concat") {
        call_string_concat(args)
    } else if same(name, "string_slice") {
        call_string_slice(args)
    } else if same(name, "string_contains") {
        call_string_contains(args)
    } else if same(name, "bytes_len") {
        call_bytes_len(args)
    } else if same(name, "bytes_concat") {
        call_bytes_concat(args)
    } else if same(name, "bytes_eq") {
        call_bytes_eq(args)
    } else if same(name, "bytes_slice") {
        call_bytes_slice(args)
    } else if same(name, "to_be_bytes") {
        call_to_be_bytes(args)
    } else if same(name, "bit_not_bytes") {
        call_bit_not_bytes(args)
    } else if same(name, "assert") {
        call_assert(args)
    } else if same(name, "sum") {
        call_sum(args)
    } else if same(name, "max") {
        call_max(args)
    } else if same(name, "min") {
        call_min(args)
    } else if same(name, "parse_json") {
        call_parse_json(args)
    } else if same(name, "json_stringify") {
        call_json_stringify(args)
    } else if same(name, "json_get_field") {
        call_json_get_field(args)
    } else if same(name, "json_get_index") {
        call_json_get_index(args)
    } else if same(name, "json_to_string") {
        call_json_to_string(args)
    } else if same(name, "json_to_i64") {
        call_json_to_i64(args)
    } else if same(name, "json_to_u64") {
        call_json_to_u64(args)
    } else if same(name, "json_to_bool") {
        call_json_to_bool(args)
    } else if same(name, "json_is_null") {
        call_json_is_null(args)
    } else {
        Err(bad_err(concat3("unknown builtin '", name, "'")))
    }
}

/// What was inserted into a set is in it.
pub proof fn inserted_members_are_found(s: Seq<ValueView>, v: ValueView)
    requires
        distinct_keys(v),
    ensures
        member_at(with_member(s, v), v, 0) is Some,
{
    equal_is_reflexive(v);
    if member_at(s, v, 0) is None {
        lemma_member_at(s.push(v), v, s.len() as int, 0);
    }
}

proof fn lemma_member_at(s: Seq<ValueView>, v: ValueView, k: int, i: nat)
    requires
        i <= k < s.len(),
        equal(s[k], v),
    ensures
        member_at(s, v, i) is Some,
    decreases k - i,
{
    if i < k && !equal(s[i as int], v) {
        lemma_member_at(s, v, k, i + 1);
    }
}

/// What was removed from a set is not in it.
pub proof fn removed_members_are_gone(s: Seq<ValueView>, v: ValueView)
    ensures
        member_at(without_member(s, v, s.len()), v, 0) is None,
{
    let t = without_member(s, v, s.len());
    lemma_without(s, v, s.len());
    lemma_no_member(t, v, 0);
}

proof fn lemma_without(s: Seq<ValueView>, v: ValueView, n: nat)
    requires
        n <= s.len(),
    ensures
        forall|i: int|
            0 <= i < without_member(s, v, n).len() ==> !equal(#[trigger] without_member(s, v, n)[i], v),
    decreases n,
{
    if n > 0 {
        lemma_without(s, v, (n - 1) as nat);
        let before = without_member(s, v, (n - 1) as nat);
        assert forall|i: int| 0 <= i < without_member(s, v, n).len() implies !equal(
            #[trigger] without_member(s, v, n)[i],
            v,
        ) by {
            if i < before.len() {
                assert(without_member(s, v, n)[i] == before[i]);
            }
        }
    }
}

proof fn lemma_no_member(s: Seq<ValueView>, v: ValueView, i: nat)
    requires
        forall|k: int| 0 <= k < s.len() ==> !equal(#[trigger] s[k], v),
    ensures
        member_at(s, v, i) is None,
    decreases s.len() - i,
{
    if i < s.len() {
        lemma_no_member(s, v, i + 1);
    }
}

/// A key that was set gives back its value.
pub proof fn set_keys_are_found(s: Seq<(ValueView, ValueView)>, k: ValueView, v: ValueView)
    requires
        distinct_keys(k),
    ensures
        match key_at(with_entry(s, k, v), k, 0) {
            Some(i) => with_entry(s, k, v)[i].1 == v,
            None => false,
        },
{
    equal_is_reflexive(k);
    let t = with_entry(s, k, v);
    match key_at(s, k, 0) {
        Some(i) => {
            lemma_key_range(s, k, 0);
            lemma_key_stays(s, t, k, 0, i);
        },
        None => {
            lemma_key_range(s, k, 0);
            lemma_key_stays(s, t, k, 0, s.len() as int);
        },
    }
}

proof fn lemma_key_range(s: Seq<(ValueView, ValueView)>, k: ValueView, i: nat)
    ensures
        match key_at(s, k, i) {
            Some(j) => i <= j < s.len() && equal(s[j].0, k) && forall|w: int|
                i <= w < j ==> !equal((#[trigger] s[w]).0, k),
            None => forall|w: int| i <= w < s.len() ==> !equal((#[trigger] s[w]).0, k),
        },
    decreases s.len() - i,
{
    if i < s.len() && !equal(s[i as int].0, k) {
        lemma_key_range(s, k, i + 1);
    }
}

proof fn lemma_key_stays(
    s: Seq<(ValueView, ValueView)>,
    t: Seq<(ValueView, ValueView)>,
    k: ValueView,
    i: nat,
    j: int,
)
    requires
        i <= j < t.len(),
        equal(t[j].0, k),
        j <= s.len(),
        forall|w: int| 0 <= w < j ==> (#[trigger] t[w]).0 == s[w].0,
        forall|w: int| i <= w < j ==> !equal((#[trigger] s[w]).0, k),
    ensures
        key_at(t, k, i) == Some(j),
    decreases j - i,
{
    if i < j {
        assert(t[i as int].0 == s[i as int].0);
        assert(!equal(s[i as int].0, k));
        lemma_key_stays(s, t, k, i + 1, j);
    }
}

/// Setting a key leaves the entries of the other keys and the order of all of them
/// alone; the dict grows by one entry exactly if the key is new.
pub proof fn setting_a_key_keeps_the_rest(s: Seq<(ValueView, ValueView)>, k: ValueView, v: ValueView)
    ensures
        with_entry(s, k, v).len() == s.len() + if key_at(s, k, 0) is None {
            1int
        } else {
            0int
        },
        forall|i: int| 0 <= i < s.len() ==> (#[trigger] with_entry(s, k, v)[i]).0 == s[i].0,
        forall|i: int|
            0 <= i < s.len() && key_at(s, k, 0) != Some(i) ==> #[trigger] with_entry(s, k, v)[i] == s[i],
{
    lemma_key_range(s, k, 0);
}

proof fn lemma_dict_keys(d: ValueView, i: int)
    requires
        distinct_keys(d),
    ensures
        d matches ValueView::Dict(s) ==> 0 <= i < s.len() ==> distinct_keys(s[i].0),
{
    match d {
        ValueView::Dict(s) => {
            if 0 <= i < s.len() {
                assert(distinct_keys(s[i].0));
            }
        },
        _ => {},
    }
}

/// Setting a key changes nothing of what another key gives.
pub proof fn setting_a_key_keeps_other_keys(
    s: Seq<(ValueView, ValueView)>,
    k: ValueView,
    v: ValueView,
    other: ValueView,
)
    requires
        distinct_keys(ValueView::Dict(s)),
        distinct_keys(k),
        distinct_keys(other),
        !equal(k, other),
    ensures
        key_at(with_entry(s, k, v), other, 0) == key_at(s, other, 0),
        key_at(s, other, 0) matches Some(j) ==> with_entry(s, k, v)[j] == s[j],
{
    let t = with_entry(s, k, v);
    lemma_key_range(s, k, 0);
    lemma_key_range(s, other, 0);
    if key_at(s, k, 0) is Some && key_at(s, k, 0) == key_at(s, other, 0) {
        let i = key_at(s, k, 0)->0;
        lemma_dict_keys(ValueView::Dict(s), i);
        equal_is_symmetric(s[i].0, k);
        equal_is_transitive(k, s[i].0, other);
    }
    match key_at(s, other, 0) {
        Some(j) => lemma_key_stays(s, t, other, 0, j),
        None => lemma_no_key(t, other, 0),
    }
}

proof fn lemma_no_key(s: Seq<(ValueView, ValueView)>, k: ValueView, i: nat)
    requires
        forall|w: int| 0 <= w < s.len() ==> !equal((#[trigger] s[w]).0, k),
    ensures
        key_at(s, k, i) is None,
    decreases s.len() - i,
{
    if i < s.len() {
        lemma_no_key(s, k, i + 1);
    }
}

/// What `dict_set` put under a key, `dict_get` finds there; under every other key it
/// finds what it found before. `dict_has` and `dict_len` tell whether the key is new.
pub proof fn dict_get_finds_what_was_set(
    d: Seq<(ValueView, ValueView)>,
    k: ValueView,
    v: ValueView,
    other: ValueView,
    default: ValueView,
)
    requires
        distinct_keys(ValueView::Dict(d)),
        distinct_keys(k),
        distinct_keys(other),
    ensures
        match dict_set_gives(seq![ValueView::Dict(d), k, v]) {
            Ok(d2) => {
                &&& dict_get_gives(seq![d2, k, default]) == Ok::<ValueView, ErrorView>(v)
                &&& !equal(k, other) ==> dict_get_gives(seq![d2, other, default]) == dict_get_gives(
                    seq![ValueView::Dict(d), other, default],
                )
                &&& d2 matches ValueView::Dict(e) && e.len() == d.len() + if dict_has_gives(
                    seq![ValueView::Dict(d), k],
                ) == Ok::<ValueView, ErrorView>(ValueView::Bool(true)) {
                    0int
                } else {
                    1int
                } && forall|i: int| 0 <= i < d.len() ==> (#[trigger] e[i]).0 == d[i].0
            },
            Err(_) => false,
        },
{
    set_keys_are_found(d, k, v);
    setting_a_key_keeps_the_rest(d, k, v);
    if !equal(k, other) {
        setting_a_key_keeps_other_keys(d, k, v, other);
        lemma_key_range(d, other, 0);
    }
}

/// A member that is in a set is not added again, and one that is not comes last.
pub proof fn members_are_added_once(s: Seq<ValueView>, v: ValueView)
    requires
        distinct_keys(v),
    ensures
        member_at(s, v, 0) is Some ==> with_member(s, v) == s,
        member_at(s, v, 0) is None ==> with_member(s, v) == s.push(v),
        with_member(with_member(s, v), v) == with_member(s, v),
        match set_insert_gives(seq![ValueView::SetOf(s), v]) {
            Ok(s2) => {
                &&& set_insert_gives(seq![s2, v]) == Ok::<ValueView, ErrorView>(s2)
                &&& set_contains_gives(seq![s2, v]) == Ok::<ValueView, ErrorView>(ValueView::Bool(true))
            },
            Err(_) => false,
        },
{
    inserted_members_are_found(s, v);
}

} // verus!
