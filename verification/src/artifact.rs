//! Compiled modules as bytes: the deployable form of a program.
//!
//! ```text
//! artifact := "REND-BC0" major minor count module*
//! ```
//!
//! Every count and length is a big-endian `u32`. Reading back what was written
//! gives the same modules, and the same modules always give the same bytes and so
//! the same hash.

use vstd::prelude::*;
use crate::ast::{InterfaceDecl, InterfaceMethod, Param, Type};
use crate::bc::{fn_names, last_named, BcFn, BcModule, Const, ConstView, EnumShape, Instr, PathSpec, ReadOp, StructShape};
use crate::bigint::BigInt;
use crate::bytes::push_be;
use crate::codec::{
    at, decode_err, decode_error, lemma_split, models, write_items, Codec, Parsed, lemma_take_stays, stays,
};
use crate::error::{Error, ErrorKind, ErrorView};
use crate::hashing::{child, child_key};
use crate::opcodes::{
    binop_byte, binop_from_byte, built, canonical, from_operands, kind_of, kinds_of, layout,
    layout_of, lemma_operands_injective, operands, operator_known, to_operands, unop_byte,
    unop_from_byte, Kind, Operand,
};
use crate::text::{concat_hex, hex2, push_decimal, text};
use crate::token::Span;

verus! {

impl Codec for ReadOp {
    type M = ReadOp;

    open spec fn model(&self) -> ReadOp {
        *self
    }

    open spec fn fits(m: ReadOp) -> bool {
        true
    }

    open spec fn enc(m: ReadOp) -> Seq<u8> {
        match m {
            ReadOp::State { dst, key_idx } => seq![1u8] + <(u16, u16)>::enc((dst, key_idx)),
            ReadOp::Path { dst, path_idx } => seq![2u8] + <(u16, u16)>::enc((dst, path_idx)),
        }
    }

    open spec fn dec(b: Seq<u8>, pos: int) -> Parsed<ReadOp> {
        match u8::dec(b, pos) {
            Parsed::Fail(m) => Parsed::Fail(m),
            Parsed::Done(g, e) => if g == 1 || g == 2 {
                match <(u16, u16)>::dec(b, e) {
                    Parsed::Fail(m) => Parsed::Fail(m),
                    Parsed::Done((x, y), e2) => Parsed::Done(
                        if g == 1 {
                            ReadOp::State { dst: x, key_idx: y }
                        } else {
                            ReadOp::Path { dst: x, path_idx: y }
                        },
                        e2,
                    ),
                }
            } else {
                Parsed::Fail("unknown read-op tag 0x"@ + hex2(g))
            },
        }
    }

    fn write(&self, out: &mut Vec<u8>) {
        match self {
            ReadOp::State { dst, key_idx } => {
                out.push(1);
                (*dst, *key_idx).write(out);
            },
            ReadOp::Path { dst, path_idx } => {
                out.push(2);
                (*dst, *path_idx).write(out);
            },
        }
        assert(out@ =~= old(out)@ + Self::enc(*self));
    }

    fn read(b: &[u8], pos: &mut usize) -> (r: Result<ReadOp, Error>) {
        match u8::read(b, pos) {
            Ok(g) => if g == 1 || g == 2 {
                match <(u16, u16)>::read(b, pos) {
                    Ok((x, y)) => if g == 1 {
                        Ok(ReadOp::State { dst: x, key_idx: y })
                    } else {
                        Ok(ReadOp::Path { dst: x, path_idx: y })
                    },
                    Err(e) => Err(e),
                }
            } else {
                Err(decode_err(concat_hex("unknown read-op tag 0x", g)))
            },
            Err(e) => Err(e),
        }
    }

    proof fn round_trip(m: ReadOp, b: Seq<u8>, pos: int) {
        match m {
            ReadOp::State { dst, key_idx } => {
                lemma_split(b, pos, seq![1u8], <(u16, u16)>::enc((dst, key_idx)));
                u8::round_trip(1, b, pos);
                <(u16, u16)>::round_trip((dst, key_idx), b, pos + 1);
            },
            ReadOp::Path { dst, path_idx } => {
                lemma_split(b, pos, seq![2u8], <(u16, u16)>::enc((dst, path_idx)));
                u8::round_trip(2, b, pos);
                <(u16, u16)>::round_trip((dst, path_idx), b, pos + 1);
            },
        }
    }

    proof fn reads_no_further(b: Seq<u8>, rest: Seq<u8>, pos: int) {
        u8::reads_no_further(b, rest, pos);
        match u8::dec(b, pos) {
            Parsed::Done(_, e) => <(u16, u16)>::reads_no_further(b, rest, e),
            Parsed::Fail(_) => {},
        }
    }
}

/// The tag of a constant.
pub open spec fn const_tag(c: ConstView) -> u8 {
    match c {
        ConstView::Int(_) => 1,
        ConstView::I32(_) => 2,
        ConstView::U32(_) => 3,
        ConstView::U64(_) => 4,
        ConstView::U128(_) => 5,
        ConstView::Bool(_) => 6,
        ConstView::Str(_) => 7,
        ConstView::UInt(_) => 8,
        ConstView::Float(_) => 9,
    }
}

/// The wire form of a constant behind its tag.
pub open spec fn const_body(c: ConstView) -> Seq<u8> {
    match c {
        ConstView::Int(n) => BigInt::enc(n),
        ConstView::UInt(n) => BigInt::enc(n),
        ConstView::Float(n) => u64::enc(n),
        ConstView::I32(n) => i32::enc(n),
        ConstView::U32(n) => u32::enc(n),
        ConstView::U64(n) => u64::enc(n),
        ConstView::U128(n) => u128::enc(n),
        ConstView::Bool(n) => bool::enc(n),
        ConstView::Str(s) => String::enc(s),
    }
}

impl Codec for Const {
    type M = ConstView;

    open spec fn model(&self) -> ConstView {
        self@
    }

    open spec fn fits(m: ConstView) -> bool {
        match m {
            ConstView::Int(n) => BigInt::fits(n),
            ConstView::UInt(n) => BigInt::fits(n),
            ConstView::Str(s) => String::fits(s),
            _ => true,
        }
    }

    open spec fn enc(m: ConstView) -> Seq<u8> {
        seq![const_tag(m)] + const_body(m)
    }

    open spec fn dec(b: Seq<u8>, pos: int) -> Parsed<ConstView> {
        match u8::dec(b, pos) {
            Parsed::Fail(m) => Parsed::Fail(m),
            Parsed::Done(g, e) => if g == 1 || g == 8 {
                match BigInt::dec(b, e) {
                    Parsed::Fail(m) => Parsed::Fail(m),
                    Parsed::Done(n, e2) => Parsed::Done(
                        if g == 1 {
                            ConstView::Int(n)
                        } else {
                            ConstView::UInt(n)
                        },
                        e2,
                    ),
                }
            } else if g == 2 {
                match i32::dec(b, e) {
                    Parsed::Fail(m) => Parsed::Fail(m),
                    Parsed::Done(n, e2) => Parsed::Done(ConstView::I32(n), e2),
                }
            } else if g == 3 {
                match u32::dec(b, e) {
                    Parsed::Fail(m) => Parsed::Fail(m),
                    Parsed::Done(n, e2) => Parsed::Done(ConstView::U32(n), e2),
                }
            } else if g == 4 || g == 9 {
                match u64::dec(b, e) {
                    Parsed::Fail(m) => Parsed::Fail(m),
                    Parsed::Done(n, e2) => Parsed::Done(
                        if g == 4 {
                            ConstView::U64(n)
                        } else {
                            ConstView::Float(n)
                        },
                        e2,
                    ),
                }
            } else if g == 5 {
                match u128::dec(b, e) {
                    Parsed::Fail(m) => Parsed::Fail(m),
                    Parsed::Done(n, e2) => Parsed::Done(ConstView::U128(n), e2),
                }
            } else if g == 6 {
                match bool::dec(b, e) {
                    Parsed::Fail(m) => Parsed::Fail(m),
                    Parsed::Done(n, e2) => Parsed::Done(ConstView::Bool(n), e2),
                }
            } else if g == 7 {
                match String::dec(b, e) {
                    Parsed::Fail(m) => Parsed::Fail(m),
                    Parsed::Done(n, e2) => Parsed::Done(ConstView::Str(n), e2),
                }
            } else {
                Parsed::Fail("unknown const tag 0x"@ + hex2(g))
            },
        }
    }

    fn write(&self, out: &mut Vec<u8>) {
        match self {
            Const::Int(n) => {
                out.push(1);
                n.write(out);
            },
            Const::UInt(n) => {
                out.push(8);
                n.write(out);
            },
            Const::Float(n) => {
                out.push(9);
                n.write(out);
            },
            Const::I32(n) => {
                out.push(2);
                n.write(out);
            },
            Const::U32(n) => {
                out.push(3);
                n.write(out);
            },
            Const::U64(n) => {
                out.push(4);
                n.write(out);
            },
            Const::U128(n) => {
                out.push(5);
                n.write(out);
            },
            Const::Bool(n) => {
                out.push(6);
                n.write(out);
            },
            Const::Str(s) => {
                out.push(7);
                s.write(out);
            },
        }
        assert(out@ =~= old(out)@ + Self::enc(self@));
    }

    fn read(b: &[u8], pos: &mut usize) -> (r: Result<Const, Error>) {
        let g = match u8::read(b, pos) {
            Ok(g) => g,
            Err(e) => return Err(e),
        };
        if g == 1 {
            match BigInt::read(b, pos) {
                Ok(n) => Ok(Const::Int(n)),
                Err(e) => Err(e),
            }
        } else if g == 8 {
            match BigInt::read(b, pos) {
                Ok(n) => Ok(Const::UInt(n)),
                Err(e) => Err(e),
            }
        } else if g == 2 {
            match i32::read(b, pos) {
                Ok(n) => Ok(Const::I32(n)),
                Err(e) => Err(e),
            }
        } else if g == 3 {
            match u32::read(b, pos) {
                Ok(n) => Ok(Const::U32(n)),
                Err(e) => Err(e),
            }
        } else if g == 4 {
            match u64::read(b, pos) {
                Ok(n) => Ok(Const::U64(n)),
                Err(e) => Err(e),
            }
        } else if g == 9 {
            match u64::read(b, pos) {
                Ok(n) => Ok(Const::Float(n)),
                Err(e) => Err(e),
            }
        } else if g == 5 {
            match u128::read(b, pos) {
                Ok(n) => Ok(Const::U128(n)),
                Err(e) => Err(e),
            }
        } else if g == 6 {
            match bool::read(b, pos) {
                Ok(n) => Ok(Const::Bool(n)),
                Err(e) => Err(e),
            }
        } else if g == 7 {
            match String::read(b, pos) {
                Ok(n) => Ok(Const::Str(n)),
                Err(e) => Err(e),
            }
        } else {
            Err(decode_err(concat_hex("unknown const tag 0x", g)))
        }
    }

    proof fn round_trip(m: ConstView, b: Seq<u8>, pos: int) {
        lemma_split(b, pos, seq![const_tag(m)], const_body(m));
        u8::round_trip(const_tag(m), b, pos);
        match m {
            ConstView::Int(n) => BigInt::round_trip(n, b, pos + 1),
            ConstView::UInt(n) => BigInt::round_trip(n, b, pos + 1),
            ConstView::Float(n) => u64::round_trip(n, b, pos + 1),
            ConstView::I32(n) => i32::round_trip(n, b, pos + 1),
            ConstView::U32(n) => u32::round_trip(n, b, pos + 1),
            ConstView::U64(n) => u64::round_trip(n, b, pos + 1),
            ConstView::U128(n) => u128::round_trip(n, b, pos + 1),
            ConstView::Bool(n) => bool::round_trip(n, b, pos + 1),
            ConstView::Str(s) => String::round_trip(s, b, pos + 1),
        }
    }

    proof fn reads_no_further(b: Seq<u8>, rest: Seq<u8>, pos: int) {
        u8::reads_no_further(b, rest, pos);
        match u8::dec(b, pos) {
            Parsed::Done(_, e) => {
                BigInt::reads_no_further(b, rest, e);
                i32::reads_no_further(b, rest, e);
                u32::reads_no_further(b, rest, e);
                u64::reads_no_further(b, rest, e);
                u128::reads_no_further(b, rest, e);
                bool::reads_no_further(b, rest, e);
                String::reads_no_further(b, rest, e);
            },
            Parsed::Fail(_) => {},
        }
    }
}

/// The wire form of an operand.
pub open spec fn enc_operand(o: Operand) -> Seq<u8> {
    match o {
        Operand::Byte(x) => u8::enc(x),
        Operand::Word(x) => u16::enc(x),
        Operand::Dist(x) => i32::enc(x),
    }
}

/// Reads an operand of a given kind.
pub open spec fn dec_operand(k: Kind, b: Seq<u8>, pos: int) -> Parsed<Operand> {
    match k {
        Kind::Byte => match u8::dec(b, pos) {
            Parsed::Fail(m) => Parsed::Fail(m),
            Parsed::Done(x, e) => Parsed::Done(Operand::Byte(x), e),
        },
        Kind::Word => match u16::dec(b, pos) {
            Parsed::Fail(m) => Parsed::Fail(m),
            Parsed::Done(x, e) => Parsed::Done(Operand::Word(x), e),
        },
        Kind::Dist => match i32::dec(b, pos) {
            Parsed::Fail(m) => Parsed::Fail(m),
            Parsed::Done(x, e) => Parsed::Done(Operand::Dist(x), e),
        },
    }
}

pub open spec fn enc_operands(s: Seq<Operand>) -> Seq<u8>
    decreases s.len(),
{
    if s.len() == 0 {
        Seq::empty()
    } else {
        enc_operands(s.drop_last()) + enc_operand(s.last())
    }
}

/// Reads the first `n` operands of a layout.
pub open spec fn dec_operands(ks: Seq<Kind>, n: nat, b: Seq<u8>, pos: int) -> Parsed<Seq<Operand>>
    decreases n,
{
    if n == 0 {
        Parsed::Done(Seq::empty(), pos)
    } else {
        match dec_operands(ks, (n - 1) as nat, b, pos) {
            Parsed::Fail(m) => Parsed::Fail(m),
            Parsed::Done(s, e) => match dec_operand(ks[n - 1], b, e) {
                Parsed::Fail(m) => Parsed::Fail(m),
                Parsed::Done(x, e2) => Parsed::Done(s.push(x), e2),
            },
        }
    }
}

proof fn lemma_operands_stay(ks: Seq<Kind>, n: nat, b: Seq<u8>, rest: Seq<u8>, pos: int)
    requires
        0 <= pos <= b.len(),
    ensures
        stays(dec_operands(ks, n, b, pos), dec_operands(ks, n, b + rest, pos), pos, b.len() as int),
    decreases n,
{
    if n > 0 {
        lemma_operands_stay(ks, (n - 1) as nat, b, rest, pos);
        match dec_operands(ks, (n - 1) as nat, b, pos) {
            Parsed::Done(_, e) => {
                u8::reads_no_further(b, rest, e);
                u16::reads_no_further(b, rest, e);
                i32::reads_no_further(b, rest, e);
            },
            Parsed::Fail(_) => {},
        }
    }
}

proof fn lemma_operands_fail(ks: Seq<Kind>, i: nat, n: nat, b: Seq<u8>, pos: int)
    requires
        i <= n,
        dec_operands(ks, i, b, pos) is Fail,
    ensures
        dec_operands(ks, n, b, pos) == dec_operands(ks, i, b, pos),
    decreases n,
{
    if i < n {
        lemma_operands_fail(ks, i, (n - 1) as nat, b, pos);
    }
}

proof fn lemma_operands_at(s: Seq<Operand>, n: nat, b: Seq<u8>, pos: int)
    requires
        n <= s.len(),
        at(b, pos, enc_operands(s.take(n as int))),
    ensures
        dec_operands(kinds_of(s), n, b, pos) == Parsed::Done(
            s.take(n as int),
            pos + enc_operands(s.take(n as int)).len(),
        ),
    decreases n,
{
    let t = s.take(n as int);
    if n > 0 {
        let h = s.take(n - 1);
        assert(t.drop_last() =~= h);
        assert(t.last() == s[n - 1]);
        lemma_split(b, pos, enc_operands(h), enc_operand(s[n - 1]));
        lemma_operands_at(s, (n - 1) as nat, b, pos);
        let e = pos + enc_operands(h).len();
        match s[n - 1] {
            Operand::Byte(x) => u8::round_trip(x, b, e),
            Operand::Word(x) => u16::round_trip(x, b, e),
            Operand::Dist(x) => i32::round_trip(x, b, e),
        }
        assert(h.push(s[n - 1]) =~= t);
    } else {
        assert(t =~= Seq::empty());
    }
}

/// Whether an operator byte that follows the tag is unknown, and the message.
pub open spec fn operator_error(tag: u8, b: Seq<u8>, pos: int) -> Option<Seq<char>> {
    if tag == 0x03 || tag == 0x04 {
        match u8::dec(b, pos) {
            Parsed::Fail(m) => Some(m),
            Parsed::Done(x, e) => if operator_known(tag, x) {
                None
            } else if tag == 0x03 {
                Some("unknown binop byte 0x"@ + hex2(x))
            } else {
                Some("unknown unop byte 0x"@ + hex2(x))
            },
        }
    } else {
        None
    }
}

fn write_operands(v: &Vec<Operand>, out: &mut Vec<u8>)
    ensures
        final(out)@ == old(out)@ + enc_operands(v@),
{
    let ghost start = out@;
    let mut i: usize = 0;
    assert(out@ =~= start + enc_operands(v@.take(0)));
    while i < v.len()
        invariant
            i <= v@.len(),
            out@ == start + enc_operands(v@.take(i as int)),
        decreases v@.len() - i,
    {
        match v[i] {
            Operand::Byte(x) => x.write(out),
            Operand::Word(x) => x.write(out),
            Operand::Dist(x) => x.write(out),
        }
        proof {
            let t = v@.take(i as int + 1);
            assert(t.drop_last() =~= v@.take(i as int));
            assert(t.last() == v@[i as int]);
            assert(out@ =~= start + enc_operands(t));
        }
        i = i + 1;
    }
    assert(v@.take(i as int) =~= v@);
}

fn read_operand(k: Kind, b: &[u8], pos: &mut usize) -> (r: Result<Operand, Error>)
    requires
        *old(pos) <= b@.len(),
    ensures
        match dec_operand(k, b@, *old(pos) as int) {
            Parsed::Done(o, e) => r == Ok::<Operand, Error>(o) && *final(pos) == e && *old(pos) <= e
                <= b@.len() && kind_of(o) == k,
            Parsed::Fail(msg) => r matches Err(x) && x@ == decode_error(msg),
        },
{
    match k {
        Kind::Byte => match u8::read(b, pos) {
            Ok(x) => Ok(Operand::Byte(x)),
            Err(e) => Err(e),
        },
        Kind::Word => match u16::read(b, pos) {
            Ok(x) => Ok(Operand::Word(x)),
            Err(e) => Err(e),
        },
        Kind::Dist => match i32::read(b, pos) {
            Ok(x) => Ok(Operand::Dist(x)),
            Err(e) => Err(e),
        },
    }
}

fn read_operands(ks: &Vec<Kind>, b: &[u8], pos: &mut usize) -> (r: Result<Vec<Operand>, Error>)
    requires
        *old(pos) <= b@.len(),
    ensures
        match dec_operands(ks@, ks@.len(), b@, *old(pos) as int) {
            Parsed::Done(s, e) => r matches Ok(x) && x@ == s && kinds_of(s) == ks@ && *final(pos) == e
                && *old(pos) <= e <= b@.len(),
            Parsed::Fail(msg) => r matches Err(x) && x@ == decode_error(msg),
        },
{
    let ghost p = *pos as int;
    let mut v: Vec<Operand> = Vec::new();
    let mut i: usize = 0;
    while i < ks.len()
        invariant
            i <= ks@.len(),
            p == *old(pos),
            p <= *pos <= b@.len(),
            v@.len() == i,
            forall|j: int| 0 <= j < i ==> kind_of(#[trigger] v@[j]) == ks@[j],
            dec_operands(ks@, i as nat, b@, p) == Parsed::Done(v@, *pos as int),
        decreases ks@.len() - i,
    {
        match read_operand(ks[i], b, pos) {
            Ok(o) => {
                v.push(o);
                i = i + 1;
            },
            Err(e) => {
                proof {
                    lemma_operands_fail(ks@, (i + 1) as nat, ks@.len(), b@, p);
                }
                return Err(e);
            },
        }
    }
    assert(kinds_of(v@) =~= ks@);
    Ok(v)
}

/// Checks the operator byte of an operator instruction.
fn check_operator(tag: u8, b: &[u8], pos: usize) -> (r: Option<Error>)
    requires
        pos <= b@.len(),
    ensures
        match operator_error(tag, b@, pos as int) {
            Some(m) => r matches Some(e) && e@ == decode_error(m),
            None => r is None,
        },
{
    if tag == 0x03 || tag == 0x04 {
        let mut p: usize = pos;
        match u8::read(b, &mut p) {
            Ok(x) => if tag == 0x03 {
                match binop_from_byte(x) {
                    Some(_) => None,
                    None => Some(decode_err(concat_hex("unknown binop byte 0x", x))),
                }
            } else {
                match unop_from_byte(x) {
                    Some(_) => None,
                    None => Some(decode_err(concat_hex("unknown unop byte 0x", x))),
                }
            },
            Err(e) => Some(e),
        }
    } else {
        None
    }
}

proof fn lemma_built(i: Instr, tag: u8, s: Seq<Operand>)
    requires
        operands(i) == (tag, canonical(tag, s)),
    ensures
        built(tag, s) == Some(i),
{
    let j = choose|j: Instr| #[trigger] operands(j) == (tag, canonical(tag, s));
    lemma_operands_injective(i, j);
}

#[verifier::spinoff_prover]
#[verifier::rlimit(60)]
proof fn lemma_layout(i: Instr)
    ensures
        layout(operands(i).0) == Some(kinds_of(operands(i).1)),
        canonical(operands(i).0, operands(i).1) == operands(i).1,
        operands(i).0 == 0x03 || operands(i).0 == 0x04 ==> (operands(i).1[0] matches Operand::Byte(b)
            && operator_known(operands(i).0, b)),
{
    let (tag, s) = operands(i);
    assert(layout(tag) is Some);
    assert(kinds_of(s) =~= layout(tag)->0);
    assert(canonical(tag, s) =~= s);
    match i {
        Instr::Bin { op, dst, lhs, rhs } => {
            assert(binop_byte(op) == binop_byte(op));
        },
        Instr::Un { op, dst, src } => {
            assert(unop_byte(op) == unop_byte(op));
        },
        _ => {},
    }
}

impl Codec for Instr {
    type M = Instr;

    open spec fn model(&self) -> Instr {
        *self
    }

    open spec fn fits(m: Instr) -> bool {
        true
    }

    open spec fn enc(m: Instr) -> Seq<u8> {
        seq![operands(m).0] + enc_operands(operands(m).1)
    }

    open spec fn dec(b: Seq<u8>, pos: int) -> Parsed<Instr> {
        match u8::dec(b, pos) {
            Parsed::Fail(m) => Parsed::Fail(m),
            Parsed::Done(tag, e) => match layout(tag) {
                None => Parsed::Fail("unknown instruction tag 0x"@ + hex2(tag)),
                Some(ks) => match operator_error(tag, b, e) {
                    Some(m) => Parsed::Fail(m),
                    None => match dec_operands(ks, ks.len(), b, e) {
                        Parsed::Fail(m) => Parsed::Fail(m),
                        Parsed::Done(s, e2) => Parsed::Done(built(tag, s)->0, e2),
                    },
                },
            },
        }
    }

    fn write(&self, out: &mut Vec<u8>) {
        let (tag, v) = to_operands(self);
        out.push(tag);
        write_operands(&v, out);
        assert(out@ =~= old(out)@ + Self::enc(*self));
    }

    fn read(b: &[u8], pos: &mut usize) -> (r: Result<Instr, Error>) {
        let tag = match u8::read(b, pos) {
            Ok(g) => g,
            Err(e) => return Err(e),
        };
        let ks = match layout_of(tag) {
            Some(ks) => ks,
            None => return Err(decode_err(concat_hex("unknown instruction tag 0x", tag))),
        };
        match check_operator(tag, b, *pos) {
            Some(e) => return Err(e),
            None => {},
        }
        let ghost p = *pos as int;
        match read_operands(&ks, b, pos) {
            Ok(v) => {
                proof {
                    if tag == 0x03 || tag == 0x04 {
                        reveal_with_fuel(dec_operands, 5);
                        assert(kinds_of(v@)[0] == Kind::Byte);
                        lemma_first_operand(ks@, ks@.len(), b@, p);
                    }
                }
                let i = from_operands(tag, &v);
                proof {
                    lemma_built(i, tag, v@);
                }
                Ok(i)
            },
            Err(e) => Err(e),
        }
    }

    proof fn round_trip(m: Instr, b: Seq<u8>, pos: int) {
        let (tag, s) = operands(m);
        lemma_layout(m);
        lemma_split(b, pos, seq![tag], enc_operands(s));
        u8::round_trip(tag, b, pos);
        assert(s.take(s.len() as int) =~= s);
        lemma_operands_at(s, s.len(), b, pos + 1);
        lemma_built(m, tag, s);
        if tag == 0x03 || tag == 0x04 {
            assert(kinds_of(s)[0] == Kind::Byte);
            lemma_first_operand(kinds_of(s), s.len(), b, pos + 1);
        }
    }

    proof fn reads_no_further(b: Seq<u8>, rest: Seq<u8>, pos: int) {
        u8::reads_no_further(b, rest, pos);
        match u8::dec(b, pos) {
            Parsed::Done(tag, e) => {
                u8::reads_no_further(b, rest, e);
                match layout(tag) {
                    Some(ks) => lemma_operands_stay(ks, ks.len(), b, rest, e),
                    None => {},
                }
            },
            Parsed::Fail(_) => {},
        }
    }
}

/// The first operand read is the one at the start.
proof fn lemma_first_operand(ks: Seq<Kind>, n: nat, b: Seq<u8>, pos: int)
    requires
        0 < n <= ks.len(),
        dec_operands(ks, n, b, pos) is Done,
        ks[0] == Kind::Byte,
    ensures
        dec_operands(ks, n, b, pos)->Done_0.len() == n,
        match u8::dec(b, pos) {
            Parsed::Done(x, e) => dec_operands(ks, n, b, pos)->Done_0[0] == Operand::Byte(x),
            Parsed::Fail(m) => false,
        },
    decreases n,
{
    reveal_with_fuel(dec_operands, 2);
    if n > 1 {
        lemma_first_operand(ks, (n - 1) as nat, b, pos);
    }
}

/// The parts of a path specification, in wire order.
pub type PathParts = (u128, (Type, bool));

impl Codec for PathSpec {
    type M = (u128, (crate::ast::TypeView, bool));

    open spec fn model(&self) -> (u128, (crate::ast::TypeView, bool)) {
        (self.leaf_key, (self.leaf_type@, self.is_blob))
    }

    open spec fn fits(m: Self::M) -> bool {
        PathParts::fits(m)
    }

    open spec fn enc(m: Self::M) -> Seq<u8> {
        PathParts::enc(m)
    }

    open spec fn dec(b: Seq<u8>, pos: int) -> Parsed<Self::M> {
        PathParts::dec(b, pos)
    }

    fn write(&self, out: &mut Vec<u8>) {
        self.leaf_key.write(out);
        self.leaf_type.write(out);
        self.is_blob.write(out);
        assert(out@ =~= old(out)@ + Self::enc(self.model()));
    }

    fn read(b: &[u8], pos: &mut usize) -> (r: Result<PathSpec, Error>) {
        match PathParts::read(b, pos) {
            Ok((leaf_key, (leaf_type, is_blob))) => Ok(PathSpec { leaf_key, leaf_type, is_blob }),
            Err(e) => Err(e),
        }
    }

    proof fn round_trip(m: Self::M, b: Seq<u8>, pos: int) {
        PathParts::round_trip(m, b, pos);
    }

    proof fn reads_no_further(b: Seq<u8>, rest: Seq<u8>, pos: int) {
        PathParts::reads_no_further(b, rest, pos);
    }
}

/// The parts of a shape: its name and the names of its members.
pub type ShapeParts = (String, Vec<String>);

impl Codec for StructShape {
    type M = (Seq<char>, Seq<Seq<char>>);

    open spec fn model(&self) -> (Seq<char>, Seq<Seq<char>>) {
        (self.name@, self.field_names.model())
    }

    open spec fn fits(m: Self::M) -> bool {
        ShapeParts::fits(m)
    }

    open spec fn enc(m: Self::M) -> Seq<u8> {
        ShapeParts::enc(m)
    }

    open spec fn dec(b: Seq<u8>, pos: int) -> Parsed<Self::M> {
        ShapeParts::dec(b, pos)
    }

    fn write(&self, out: &mut Vec<u8>) {
        self.name.write(out);
        self.field_names.write(out);
        assert(out@ =~= old(out)@ + Self::enc(self.model()));
    }

    fn read(b: &[u8], pos: &mut usize) -> (r: Result<StructShape, Error>) {
        match ShapeParts::read(b, pos) {
            Ok((name, field_names)) => Ok(StructShape { name, field_names }),
            Err(e) => Err(e),
        }
    }

    proof fn round_trip(m: Self::M, b: Seq<u8>, pos: int) {
        ShapeParts::round_trip(m, b, pos);
    }

    proof fn reads_no_further(b: Seq<u8>, rest: Seq<u8>, pos: int) {
        ShapeParts::reads_no_further(b, rest, pos);
    }
}

impl Codec for EnumShape {
    type M = (Seq<char>, Seq<Seq<char>>);

    open spec fn model(&self) -> (Seq<char>, Seq<Seq<char>>) {
        (self.name@, self.variant_names.model())
    }

    open spec fn fits(m: Self::M) -> bool {
        ShapeParts::fits(m)
    }

    open spec fn enc(m: Self::M) -> Seq<u8> {
        ShapeParts::enc(m)
    }

    open spec fn dec(b: Seq<u8>, pos: int) -> Parsed<Self::M> {
        ShapeParts::dec(b, pos)
    }

    fn write(&self, out: &mut Vec<u8>) {
        self.name.write(out);
        self.variant_names.write(out);
        assert(out@ =~= old(out)@ + Self::enc(self.model()));
    }

    fn read(b: &[u8], pos: &mut usize) -> (r: Result<EnumShape, Error>) {
        match ShapeParts::read(b, pos) {
            Ok((name, variant_names)) => Ok(EnumShape { name, variant_names }),
            Err(e) => Err(e),
        }
    }

    proof fn round_trip(m: Self::M, b: Seq<u8>, pos: int) {
        ShapeParts::round_trip(m, b, pos);
    }

    proof fn reads_no_further(b: Seq<u8>, rest: Seq<u8>, pos: int) {
        ShapeParts::reads_no_further(b, rest, pos);
    }
}

/// The parts of a parameter. Its position in the source is not kept.
pub type ParamParts = (String, Type);

impl Codec for Param {
    type M = (Seq<char>, crate::ast::TypeView);

    open spec fn model(&self) -> (Seq<char>, crate::ast::TypeView) {
        (self.name@, self.ty@)
    }

    open spec fn fits(m: Self::M) -> bool {
        ParamParts::fits(m)
    }

    open spec fn enc(m: Self::M) -> Seq<u8> {
        ParamParts::enc(m)
    }

    open spec fn dec(b: Seq<u8>, pos: int) -> Parsed<Self::M> {
        ParamParts::dec(b, pos)
    }

    fn write(&self, out: &mut Vec<u8>) {
        self.name.write(out);
        self.ty.write(out);
        assert(out@ =~= old(out)@ + Self::enc(self.model()));
    }

    fn read(b: &[u8], pos: &mut usize) -> (r: Result<Param, Error>) {
        match ParamParts::read(b, pos) {
            Ok((name, ty)) => Ok(Param { name, ty, span: Span { start: 0, end: 0 } }),
            Err(e) => Err(e),
        }
    }

    proof fn round_trip(m: Self::M, b: Seq<u8>, pos: int) {
        ParamParts::round_trip(m, b, pos);
    }

    proof fn reads_no_further(b: Seq<u8>, rest: Seq<u8>, pos: int) {
        ParamParts::reads_no_further(b, rest, pos);
    }
}

/// The parts of an interface method. Its position in the source is not kept.
pub type MethodParts = (String, (bool, (bool, (Vec<Param>, Type))));

impl Codec for InterfaceMethod {
    type M = (Seq<char>, (bool, (bool, (Seq<(Seq<char>, crate::ast::TypeView)>, crate::ast::TypeView))));

    open spec fn model(&self) -> Self::M {
        (self.name@, (self.is_view, (self.is_pure, (self.params.model(), self.return_type@))))
    }

    open spec fn fits(m: Self::M) -> bool {
        MethodParts::fits(m)
    }

    open spec fn enc(m: Self::M) -> Seq<u8> {
        MethodParts::enc(m)
    }

    open spec fn dec(b: Seq<u8>, pos: int) -> Parsed<Self::M> {
        MethodParts::dec(b, pos)
    }

    fn write(&self, out: &mut Vec<u8>) {
        self.name.write(out);
        self.is_view.write(out);
        self.is_pure.write(out);
        self.params.write(out);
        self.return_type.write(out);
        assert(out@ =~= old(out)@ + Self::enc(self.model()));
    }

    fn read(b: &[u8], pos: &mut usize) -> (r: Result<InterfaceMethod, Error>) {
        match MethodParts::read(b, pos) {
            Ok((name, (is_view, (is_pure, (params, return_type))))) => Ok(
                InterfaceMethod {
                    name,
                    params,
                    return_type,
                    is_view,
                    is_pure,
                    span: Span { start: 0, end: 0 },
                },
            ),
            Err(e) => Err(e),
        }
    }

    proof fn round_trip(m: Self::M, b: Seq<u8>, pos: int) {
        MethodParts::round_trip(m, b, pos);
    }

    proof fn reads_no_further(b: Seq<u8>, rest: Seq<u8>, pos: int) {
        MethodParts::reads_no_further(b, rest, pos);
    }
}

/// The parts of an interface. Its position in the source is not kept.
pub type InterfaceParts = (String, Vec<InterfaceMethod>);

impl Codec for InterfaceDecl {
    type M = (Seq<char>, Seq<<InterfaceMethod as Codec>::M>);

    open spec fn model(&self) -> Self::M {
        (self.name@, self.methods.model())
    }

    open spec fn fits(m: Self::M) -> bool {
        InterfaceParts::fits(m)
    }

    open spec fn enc(m: Self::M) -> Seq<u8> {
        InterfaceParts::enc(m)
    }

    open spec fn dec(b: Seq<u8>, pos: int) -> Parsed<Self::M> {
        InterfaceParts::dec(b, pos)
    }

    fn write(&self, out: &mut Vec<u8>) {
        self.name.write(out);
        self.methods.write(out);
        assert(out@ =~= old(out)@ + Self::enc(self.model()));
    }

    fn read(b: &[u8], pos: &mut usize) -> (r: Result<InterfaceDecl, Error>) {
        match InterfaceParts::read(b, pos) {
            Ok((name, methods)) => Ok(
                InterfaceDecl { name, methods, span: Span { start: 0, end: 0 } },
            ),
            Err(e) => Err(e),
        }
    }

    proof fn round_trip(m: Self::M, b: Seq<u8>, pos: int) {
        InterfaceParts::round_trip(m, b, pos);
    }

    proof fn reads_no_further(b: Seq<u8>, rest: Seq<u8>, pos: int) {
        InterfaceParts::reads_no_further(b, rest, pos);
    }
}

/// The head of a function, in wire order: name, parameter and register counts,
/// the entry, non-reentrant, view and pure flags.
pub type FnHead = (String, (u16, (u16, (bool, (bool, (bool, bool))))));

/// The body of a function, in wire order: parameter types, result type,
/// constants, code, read groups.
pub type FnBody = (Vec<Type>, (Type, (Vec<Const>, (Vec<Instr>, Vec<Vec<ReadOp>>))));

/// The parts of a function, in wire order.
pub type FnParts = (FnHead, FnBody);

impl Codec for BcFn {
    type M = <FnParts as Codec>::M;

    open spec fn model(&self) -> Self::M {
        let flags = (self.is_entry, (self.is_nore, (self.is_view, self.is_pure)));
        let head = (self.name@, (self.n_params, (self.n_regs, flags)));
        let code = (self.consts.model(), (self.code.model(), self.read_groups.model()));
        (head, (self.param_types.model(), (self.return_type@, code)))
    }

    open spec fn fits(m: Self::M) -> bool {
        FnParts::fits(m)
    }

    open spec fn enc(m: Self::M) -> Seq<u8> {
        FnParts::enc(m)
    }

    open spec fn dec(b: Seq<u8>, pos: int) -> Parsed<Self::M> {
        FnParts::dec(b, pos)
    }

    #[verifier::rlimit(60)]
    fn write(&self, out: &mut Vec<u8>) {
        self.name.write(out);
        self.n_params.write(out);
        self.n_regs.write(out);
        self.is_entry.write(out);
        self.is_nore.write(out);
        self.is_view.write(out);
        self.is_pure.write(out);
        self.param_types.write(out);
        self.return_type.write(out);
        self.consts.write(out);
        self.code.write(out);
        self.read_groups.write(out);
        assert(out@ =~= old(out)@ + Self::enc(self.model()));
    }

    fn read(b: &[u8], pos: &mut usize) -> (r: Result<BcFn, Error>) {
        match FnParts::read(b, pos) {
            Ok((head, body)) => {
                let (name, (n_params, (n_regs, (is_entry, (is_nore, (is_view, is_pure)))))) = head;
                let (param_types, (return_type, (consts, (code, read_groups)))) = body;
                Ok(
                BcFn {
                    name,
                    n_params,
                    n_regs,
                    code,
                    consts,
                    is_entry,
                    is_nore,
                    read_groups,
                    param_types,
                    return_type,
                    is_view,
                    is_pure,
                },
                )
            },
            Err(e) => Err(e),
        }
    }

    proof fn round_trip(m: Self::M, b: Seq<u8>, pos: int) {
        FnParts::round_trip(m, b, pos);
    }

    proof fn reads_no_further(b: Seq<u8>, rest: Seq<u8>, pos: int) {
        FnParts::reads_no_further(b, rest, pos);
    }
}

/// The state part of a module, in wire order: cell keys, types, initial values,
/// names.
pub type StateParts = (Vec<u128>, (Vec<Type>, (Vec<Vec<u8>>, Vec<String>)));

/// The code part of a module, in wire order: struct shapes, functions, paths,
/// enum shapes, interfaces.
pub type CodeParts = (
    Vec<StructShape>,
    (Vec<BcFn>, (Vec<PathSpec>, (Vec<EnumShape>, Vec<InterfaceDecl>))),
);

/// The parts of a module, in wire order: name, imports, states, code.
pub type ModuleParts = (String, (Vec<String>, (StateParts, CodeParts)));

impl BcModule {
    /// Appends the state part.
    #[verifier::spinoff_prover]
    #[verifier::rlimit(100)]
    fn write_states(&self, out: &mut Vec<u8>)
        ensures
            final(out)@ == old(out)@ + StateParts::enc(
                (
                    self.state_roots.model(),
                    (
                        self.state_types.model(),
                        (self.state_defaults.model(), self.state_names.model()),
                    ),
                ),
            ),
    {
        self.state_roots.write(out);
        self.state_types.write(out);
        self.state_defaults.write(out);
        self.state_names.write(out);
        let ghost names = (self.state_defaults.model(), self.state_names.model());
        assert(out@ =~= old(out)@ + StateParts::enc(
            (self.state_roots.model(), (self.state_types.model(), names)),
        ));
    }

    /// Appends the code part.
    #[verifier::spinoff_prover]
    #[verifier::rlimit(100)]
    fn write_code(&self, out: &mut Vec<u8>)
        ensures
            final(out)@ == old(out)@ + CodeParts::enc(
                (
                    self.struct_shapes.model(),
                    (
                        self.functions.model(),
                        (
                            self.path_specs.model(),
                            (self.enum_shapes.model(), self.interfaces.model()),
                        ),
                    ),
                ),
            ),
    {
        self.struct_shapes.write(out);
        self.functions.write(out);
        self.path_specs.write(out);
        self.enum_shapes.write(out);
        self.interfaces.write(out);
        let ghost tail = (
            self.path_specs.model(),
            (self.enum_shapes.model(), self.interfaces.model()),
        );
        assert(out@ =~= old(out)@ + CodeParts::enc(
            (self.struct_shapes.model(), (self.functions.model(), tail)),
        ));
    }
}

impl Codec for BcModule {
    type M = <ModuleParts as Codec>::M;

    open spec fn model(&self) -> Self::M {
        let names = (self.state_defaults.model(), self.state_names.model());
        let states = (self.state_roots.model(), (self.state_types.model(), names));
        let tail = (self.path_specs.model(), (self.enum_shapes.model(), self.interfaces.model()));
        let code = (self.struct_shapes.model(), (self.functions.model(), tail));
        (self.name@, (self.imports.model(), (states, code)))
    }

    open spec fn fits(m: Self::M) -> bool {
        ModuleParts::fits(m)
    }

    open spec fn enc(m: Self::M) -> Seq<u8> {
        ModuleParts::enc(m)
    }

    open spec fn dec(b: Seq<u8>, pos: int) -> Parsed<Self::M> {
        ModuleParts::dec(b, pos)
    }

    #[verifier::spinoff_prover]
    #[verifier::rlimit(100)]
    fn write(&self, out: &mut Vec<u8>) {
        self.name.write(out);
        self.imports.write(out);
        let ghost mid = out@;
        self.write_states(out);
        self.write_code(out);
        let ghost m = self.model();
        assert(out@ =~= mid + <(StateParts, CodeParts)>::enc((m.1).1));
        assert(out@ =~= old(out)@ + Self::enc(m));
    }

    fn read(b: &[u8], pos: &mut usize) -> (r: Result<BcModule, Error>) {
        match ModuleParts::read(b, pos) {
            Ok((name, (imports, (states, code)))) => {
                let (state_roots, (state_types, (state_defaults, state_names))) = states;
                let (struct_shapes, (functions, (path_specs, (enum_shapes, interfaces)))) = code;
                Ok(
                BcModule {
                    name,
                    imports,
                    state_roots,
                    state_types,
                    state_defaults,
                    state_names,
                    struct_shapes,
                    functions,
                    path_specs,
                    enum_shapes,
                    interfaces,
                },
                )
            },
            Err(e) => Err(e),
        }
    }

    proof fn round_trip(m: Self::M, b: Seq<u8>, pos: int) {
        ModuleParts::round_trip(m, b, pos);
    }

    proof fn reads_no_further(b: Seq<u8>, rest: Seq<u8>, pos: int) {
        ModuleParts::reads_no_further(b, rest, pos);
    }
}

/// The models of a list of modules.
pub type ModuleModels = Seq<<BcModule as Codec>::M>;

/// The bytes every artifact starts with.
pub open spec fn magic() -> Seq<u8> {
    seq![0x52u8, 0x45u8, 0x4eu8, 0x44u8, 0x2du8, 0x42u8, 0x43u8, 0x30u8]
}

/// The format version: a reader takes every minor version of its major version.
pub const VERSION_MAJOR: u8 = 0;

pub const VERSION_MINOR: u8 = 14;

/// The wire form of a list of modules.
#[verifier::opaque]
pub open spec fn enc_modules(ms: ModuleModels) -> Seq<u8> {
    Vec::<BcModule>::enc(ms)
}

/// Reads a list of modules.
#[verifier::opaque]
pub open spec fn dec_modules(b: Seq<u8>, pos: int) -> Parsed<ModuleModels> {
    Vec::<BcModule>::dec(b, pos)
}

/// Whether every length in the modules can be written.
#[verifier::opaque]
pub open spec fn modules_fit(ms: ModuleModels) -> bool {
    Vec::<BcModule>::fits(ms)
}

proof fn lemma_modules_at(ms: ModuleModels, b: Seq<u8>, pos: int)
    requires
        modules_fit(ms),
        at(b, pos, enc_modules(ms)),
    ensures
        dec_modules(b, pos) == Parsed::Done(ms, pos + enc_modules(ms).len()),
{
    reveal(modules_fit);
    reveal(enc_modules);
    reveal(dec_modules);
    Vec::<BcModule>::round_trip(ms, b, pos);
}

/// The bytes of an artifact with the given modules.
pub open spec fn artifact_bytes(ms: ModuleModels) -> Seq<u8> {
    magic() + seq![VERSION_MAJOR, VERSION_MINOR] + enc_modules(ms)
}

/// The message about a version that cannot be read.
pub open spec fn version_message(major: u8, minor: u8) -> Seq<char> {
    "unsupported artifact major version "@ + crate::text::decimal(major as nat) + "."@
        + crate::text::decimal(minor as nat) + " (this build expects "@ + crate::text::decimal(
        VERSION_MAJOR as nat,
    ) + ".x)"@
}

/// What an artifact's bytes hold: the modules, or what is wrong with the bytes.
pub open spec fn parse_artifact(b: Seq<u8>) -> Result<ModuleModels, Seq<char>> {
    match crate::codec::dec_take(b, 0, 8) {
        Parsed::Fail(m) => Err(m),
        Parsed::Done(g, e) => if g != magic() {
            Err("artifact magic mismatch — not a REND artifact"@)
        } else {
            match <(u8, u8)>::dec(b, e) {
                Parsed::Fail(m) => Err(m),
                Parsed::Done((major, minor), e2) => if major != VERSION_MAJOR {
                    Err(version_message(major, minor))
                } else {
                    match dec_modules(b, e2) {
                        Parsed::Fail(m) => Err(m),
                        Parsed::Done(ms, e3) => if e3 != b.len() {
                            Err(
                                "artifact has "@ + crate::text::decimal((b.len() - e3) as nat)
                                    + " trailing bytes after the last module"@,
                            )
                        } else {
                            Ok(ms)
                        },
                    }
                },
            }
        },
    }
}

/// Reading the bytes written for some modules gives those modules.
pub proof fn decode_of_encode(ms: ModuleModels)
    requires
        modules_fit(ms),
    ensures
        parse_artifact(artifact_bytes(ms)) == Ok::<ModuleModels, Seq<char>>(ms),
{
    let b = artifact_bytes(ms);
    let v = seq![VERSION_MAJOR, VERSION_MINOR];
    let x = enc_modules(ms);
    assert(b.subrange(0, b.len() as int) =~= b);
    assert(at(b, 0, b));
    lemma_split(b, 0, magic() + v, x);
    lemma_split(b, 0, magic(), v);
    assert(b.subrange(0, 8) =~= magic());
    assert(b[8] == b.subrange(8, 10)[0]);
    assert(b[9] == b.subrange(8, 10)[1]);
    lemma_modules_at(ms, b, 10);
}

/// Different modules have different bytes.
pub proof fn encode_is_injective(a: ModuleModels, b: ModuleModels)
    requires
        modules_fit(a),
        modules_fit(b),
        artifact_bytes(a) == artifact_bytes(b),
    ensures
        a == b,
{
    decode_of_encode(a);
    decode_of_encode(b);
}

/// The modules of an encoding are found whatever stands behind it.
proof fn lemma_modules_behind(ms: ModuleModels, rest: Seq<u8>)
    requires
        modules_fit(ms),
    ensures
        parse_artifact(artifact_bytes(ms) + rest) == if rest.len() == 0 {
            Ok::<ModuleModels, Seq<char>>(ms)
        } else {
            Err("artifact has "@ + crate::text::decimal(rest.len()) + " trailing bytes after the last module"@)
        },
{
    let x = artifact_bytes(ms);
    let b = x + rest;
    let v = seq![VERSION_MAJOR, VERSION_MINOR];
    assert(b.subrange(0, x.len() as int) =~= x);
    assert(at(b, 0, x));
    lemma_split(b, 0, magic() + v, enc_modules(ms));
    lemma_split(b, 0, magic(), v);
    assert(b.subrange(0, 8) == magic());
    assert(b.subrange(8, 10) == v);
    assert(b[8] == b.subrange(8, 10)[0] && b[9] == b.subrange(8, 10)[1]);
    lemma_modules_at(ms, b, 10);
}

/// An encoding with anything behind it is refused.
pub proof fn trailing_bytes_are_refused(ms: ModuleModels, rest: Seq<u8>)
    requires
        modules_fit(ms),
        rest.len() > 0,
    ensures
        parse_artifact(artifact_bytes(ms) + rest) is Err,
{
    lemma_modules_behind(ms, rest);
}

/// An encoding that is cut short anywhere is refused.
pub proof fn cut_encodings_are_refused(ms: ModuleModels, n: int)
    requires
        modules_fit(ms),
        0 <= n < artifact_bytes(ms).len(),
    ensures
        parse_artifact(artifact_bytes(ms).take(n)) is Err,
{
    let x = artifact_bytes(ms);
    let b = x.take(n);
    let rest = x.skip(n);
    assert(b + rest =~= x);
    decode_of_encode(ms);
    if parse_artifact(b) is Ok {
        lemma_take_stays(b, rest, 0, 8);
        <(u8, u8)>::reads_no_further(b, rest, 8);
        reveal(dec_modules);
        Vec::<BcModule>::reads_no_further(b, rest, 10);
        match dec_modules(b, 10) {
            Parsed::Done(_, e) => {
                assert(dec_modules(x, 10) == dec_modules(b, 10));
                assert(e == n);
                assert(e == x.len());
            },
            Parsed::Fail(_) => {},
        }
    }
}

/// An encoding starts with the magic, the version, and the number of modules.
pub proof fn encodings_start_alike(ms: ModuleModels)
    ensures
        artifact_bytes(ms).len() >= 14,
        artifact_bytes(ms).take(8) == magic(),
        artifact_bytes(ms)[8] == 0,
        artifact_bytes(ms)[9] == 14,
        artifact_bytes(ms).subrange(10, 14) == crate::bytes::be_bytes(ms.len(), 4),
{
    reveal(enc_modules);
    crate::bytes::lemma_be_bytes_len(ms.len(), 4);
    let x = artifact_bytes(ms);
    assert(x.take(8) =~= magic());
    assert(x.subrange(10, 14) =~= crate::bytes::be_bytes(ms.len(), 4));
}

/// The identity of an artifact: the hash of its bytes.
pub open spec fn artifact_id(b: Seq<u8>) -> u128 {
    child_key(0, b)
}

/// The same modules always get the same identity, also after a trip through
/// their bytes.
pub proof fn id_is_stable(ms: ModuleModels)
    requires
        modules_fit(ms),
    ensures
        match parse_artifact(artifact_bytes(ms)) {
            Ok(again) => artifact_id(artifact_bytes(again)) == artifact_id(artifact_bytes(ms)),
            Err(_) => false,
        },
{
    decode_of_encode(ms);
}

/// The bytes of an artifact with the given modules.
pub fn encode(modules: &[BcModule]) -> (out: Vec<u8>)
    ensures
        out@ == artifact_bytes(models(modules@)),
{
    let mut out: Vec<u8> = vec![0x52u8, 0x45u8, 0x4eu8, 0x44u8, 0x2du8, 0x42u8, 0x43u8, 0x30u8];
    out.push(VERSION_MAJOR);
    out.push(VERSION_MINOR);
    assert(out@ =~= magic() + seq![VERSION_MAJOR, VERSION_MINOR]);
    push_be(&mut out, modules.len() as u128, 4);
    write_items(modules, &mut out);
    let ghost all = models(modules@);
    reveal(enc_modules);
    assert(out@ =~= artifact_bytes(all));
    out
}

fn starts_with_magic(b: &[u8]) -> (r: bool)
    requires
        b@.len() >= 8,
    ensures
        r == (b@.subrange(0, 8) == magic()),
{
    let r = b[0] == 0x52 && b[1] == 0x45 && b[2] == 0x4e && b[3] == 0x44 && b[4] == 0x2d && b[5]
        == 0x42 && b[6] == 0x43 && b[7] == 0x30;
    proof {
        let s = b@.subrange(0, 8);
        if r {
            assert(s =~= magic());
        } else if s == magic() {
            assert(s[0] == 0x52 && s[1] == 0x45 && s[2] == 0x4e && s[3] == 0x44);
            assert(s[4] == 0x2d && s[5] == 0x42 && s[6] == 0x43 && s[7] == 0x30);
        }
    }
    r
}

/// The modules of an artifact.
pub fn decode(bytes: &[u8]) -> (r: Result<Vec<BcModule>, Error>)
    ensures
        match parse_artifact(bytes@) {
            Ok(ms) => r matches Ok(v) && models(v@) == ms,
            Err(m) => r matches Err(e) && e@ == decode_error(m),
        },
{
    match crate::codec::need(bytes, 0, 8) {
        Ok(_) => {},
        Err(e) => return Err(e),
    }
    if !starts_with_magic(bytes) {
        return Err(decode_err(text("artifact magic mismatch — not a REND artifact")));
    }
    let mut pos: usize = 8;
    let (major, minor) = match <(u8, u8)>::read(bytes, &mut pos) {
        Ok(v) => v,
        Err(e) => return Err(e),
    };
    if major != VERSION_MAJOR {
        let mut msg = text("unsupported artifact major version ");
        push_decimal(&mut msg, major as u128);
        msg.append(".");
        push_decimal(&mut msg, minor as u128);
        msg.append(" (this build expects ");
        push_decimal(&mut msg, VERSION_MAJOR as u128);
        msg.append(".x)");
        return Err(decode_err(msg));
    }
    reveal(dec_modules);
    let modules = match Vec::<BcModule>::read(bytes, &mut pos) {
        Ok(v) => v,
        Err(e) => return Err(e),
    };
    if pos != bytes.len() {
        let mut msg = text("artifact has ");
        push_decimal(&mut msg, (bytes.len() - pos) as u128);
        msg.append(" trailing bytes after the last module");
        return Err(decode_err(msg));
    }
    Ok(modules)
}

/// A deployable program: modules, their bytes, and the hash of the bytes.
#[derive(Debug)]
pub struct Artifact {
    pub bytes: Vec<u8>,
    pub content_hash: u128,
    pub modules: Vec<BcModule>,
}

/// Whether a module has a function called `main`.
pub open spec fn has_main(m: BcModule) -> bool {
    last_named(fn_names(m), "main"@) is Some
}

/// The places of the modules that have a `main` among the first `n`.
pub open spec fn mains(ms: Seq<BcModule>, n: nat) -> Seq<int>
    decreases n,
{
    if n == 0 {
        Seq::empty()
    } else if has_main(ms[n - 1]) {
        mains(ms, (n - 1) as nat).push(n - 1)
    } else {
        mains(ms, (n - 1) as nat)
    }
}

proof fn lemma_mains_grow(ms: Seq<BcModule>, a: nat, b: nat)
    requires
        a <= b,
    ensures
        mains(ms, a).len() <= mains(ms, b).len(),
    decreases b,
{
    if a < b {
        lemma_mains_grow(ms, a, (b - 1) as nat);
    }
}

impl Artifact {
    /// Whether the bytes are those of the modules, and the hash that of the bytes.
    pub open spec fn coherent(&self) -> bool {
        &&& parse_artifact(self.bytes@) == Ok::<ModuleModels, Seq<char>>(models(self.modules@))
        &&& self.content_hash == artifact_id(self.bytes@)
    }

    pub fn from_modules(modules: Vec<BcModule>) -> (r: Artifact)
        ensures
            r.modules == modules,
            r.bytes@ == artifact_bytes(models(modules@)),
            r.content_hash == artifact_id(r.bytes@),
            modules_fit(models(modules@)) ==> r.coherent(),
    {
        let bytes = encode(modules.as_slice());
        let content_hash = child(0, bytes.as_slice());
        proof {
            if modules_fit(models(modules@)) {
                decode_of_encode(models(modules@));
            }
        }
        Artifact { bytes, content_hash, modules }
    }

    pub fn from_bytes(bytes: Vec<u8>) -> (r: Result<Artifact, Error>)
        ensures
            match parse_artifact(bytes@) {
                Ok(ms) => r matches Ok(a) && a.bytes == bytes && models(a.modules@) == ms && a.coherent(),
                Err(m) => r matches Err(e) && e@ == decode_error(m),
            },
    {
        match decode(bytes.as_slice()) {
            Ok(modules) => {
                let content_hash = child(0, bytes.as_slice());
                Ok(Artifact { bytes, content_hash, modules })
            },
            Err(e) => Err(e),
        }
    }

    /// The name of the module with a `main`, if there is one.
    pub fn main_module(&self) -> (r: Result<Option<&str>, Error>)
        ensures
            ({
                let found = mains(self.modules@, self.modules@.len());
                if found.len() == 0 {
                    r matches Ok(None)
                } else if found.len() == 1 {
                    r matches Ok(Some(s)) && s@ == self.modules@[found[0]].name@
                } else {
                    r matches Err(e) && e@ == (ErrorView {
                        kind: ErrorKind::Type,
                        msg: "artifact has more than one module with a `main` fn — ambiguous"@,
                        span: crate::token::no_span(),
                    })
                }
            }),
    {
        let mut found: Option<usize> = None;
        let mut i: usize = 0;
        while i < self.modules.len()
            invariant
                i <= self.modules@.len(),
                match found {
                    None => mains(self.modules@, i as nat).len() == 0,
                    Some(k) => k < self.modules@.len() && mains(self.modules@, i as nat) == seq![
                        k as int,
                    ],
                },
            decreases self.modules@.len() - i,
        {
            match self.modules[i].find_fn("main") {
                Some(_) => {
                    if found.is_some() {
                        proof {
                            lemma_mains_grow(self.modules@, (i + 1) as nat, self.modules@.len());
                        }
                        return Err(
                            Error::new(
                                ErrorKind::Type,
                                text("artifact has more than one module with a `main` fn — ambiguous"),
                                Span { start: 0, end: 0 },
                            ),
                        );
                    }
                    assert(mains(self.modules@, (i + 1) as nat) =~= seq![i as int]);
                    found = Some(i);
                },
                None => {},
            }
            i = i + 1;
        }
        match found {
            Some(k) => Ok(Some(self.modules[k].name.as_str())),
            None => Ok(None),
        }
    }
}

} // verus!
