//! Values that can be written to bytes and read back.

use vstd::prelude::*;
use vstd::utf8::{decode_utf8, encode_utf8, valid_utf8};
use crate::bigint::{twos_bytes, twos_val, BigInt};
use crate::bytes::{be_bytes, be_val, get_be, pow256, push_all, push_be, slice_vec};
use crate::error::{Error, ErrorKind, ErrorView};
use crate::text::{decimal, push_decimal, text};
use crate::token::Span;

verus! {

/// The outcome of reading at a position: a value and the position after it, or
/// the message of the failure.
pub enum Parsed<T> {
    Done(T, int),
    Fail(Seq<char>),
}

/// The error that a failed read is reported as.
pub open spec fn decode_error(msg: Seq<char>) -> ErrorView {
    ErrorView { kind: ErrorKind::Runtime, msg, span: crate::token::no_span() }
}

pub fn decode_err(msg: String) -> (e: Error)
    ensures
        e@ == decode_error(msg@),
{
    Error::new(ErrorKind::Runtime, msg, Span { start: 0, end: 0 })
}

/// The message about missing bytes.
pub open spec fn truncated(b: Seq<u8>, pos: int, n: nat) -> Seq<char> {
    "truncated artifact: needed "@ + decimal(n) + " bytes at offset "@ + decimal(pos as nat)
        + ", had "@ + decimal((b.len() - pos) as nat)
}

/// The next `n` bytes.
pub open spec fn dec_take(b: Seq<u8>, pos: int, n: nat) -> Parsed<Seq<u8>> {
    if pos + n > b.len() {
        Parsed::Fail(truncated(b, pos, n))
    } else {
        Parsed::Done(b.subrange(pos, pos + n), pos + n)
    }
}

/// The next `n` bytes as a big-endian number.
pub open spec fn dec_be(b: Seq<u8>, pos: int, n: nat) -> Parsed<nat> {
    match dec_take(b, pos, n) {
        Parsed::Done(s, e) => Parsed::Done(be_val(s), e),
        Parsed::Fail(m) => Parsed::Fail(m),
    }
}

/// Whether `x` stands in `b` from `pos` on.
pub open spec fn at(b: Seq<u8>, pos: int, x: Seq<u8>) -> bool {
    0 <= pos && pos + x.len() <= b.len() && b.subrange(pos, pos + x.len()) == x
}

/// Where two pieces stand in a row, each of them stands.
pub proof fn lemma_split(b: Seq<u8>, pos: int, x: Seq<u8>, y: Seq<u8>)
    requires
        at(b, pos, x + y),
    ensures
        at(b, pos, x),
        at(b, pos + x.len(), y),
{
    let s = b.subrange(pos, pos + (x + y).len());
    assert(b.subrange(pos, pos + x.len()) =~= s.subrange(0, x.len() as int));
    assert(s.subrange(0, x.len() as int) =~= x);
    assert(b.subrange(pos + x.len(), pos + x.len() + y.len()) =~= s.subrange(
        x.len() as int,
        (x.len() + y.len()) as int,
    ));
    assert(s.subrange(x.len() as int, (x.len() + y.len()) as int) =~= y);
}

/// A value with a wire form. The wire form is a function of the model, and
/// reading is a function of the bytes and the position.
pub trait Codec: Sized {
    type M;

    /// What the value stands for.
    spec fn model(&self) -> Self::M;

    /// Whether every length in the value can be written in four bytes.
    spec fn fits(m: Self::M) -> bool;

    /// The wire form.
    spec fn enc(m: Self::M) -> Seq<u8>;

    /// What the bytes from a position on hold.
    spec fn dec(b: Seq<u8>, pos: int) -> Parsed<Self::M>;

    fn write(&self, out: &mut Vec<u8>)
        ensures
            final(out)@ == old(out)@ + Self::enc(self.model()),
    ;

    fn read(b: &[u8], pos: &mut usize) -> (r: Result<Self, Error>)
        requires
            *old(pos) <= b@.len(),
        ensures
            match Self::dec(b@, *old(pos) as int) {
                Parsed::Done(m, e) => r matches Ok(x) && x.model() == m && *final(pos) == e
                    && *old(pos) <= e <= b@.len(),
                Parsed::Fail(msg) => r matches Err(x) && x@ == decode_error(msg),
            },
    ;

    /// Reading the wire form gives the value back.
    proof fn round_trip(m: Self::M, b: Seq<u8>, pos: int)
        requires
            Self::fits(m),
            at(b, pos, Self::enc(m)),
        ensures
            Self::dec(b, pos) == Parsed::Done(m, pos + Self::enc(m).len()),
    ;

    /// What stands behind a value that was read plays no part in what was read.
    proof fn reads_no_further(b: Seq<u8>, rest: Seq<u8>, pos: int)
        requires
            0 <= pos <= b.len(),
        ensures
            stays(Self::dec(b, pos), Self::dec(b + rest, pos), pos, b.len() as int),
    ;
}

/// Whether a second read gives what the first gave, if that gave something between
/// two places.
pub open spec fn stays<T>(first: Parsed<T>, second: Parsed<T>, from: int, to: int) -> bool {
    match first {
        Parsed::Done(_, e) => from <= e <= to && second == first,
        Parsed::Fail(_) => true,
    }
}

/// What stands behind bytes that were taken plays no part in them.
pub proof fn lemma_take_stays(b: Seq<u8>, rest: Seq<u8>, pos: int, n: nat)
    requires
        0 <= pos <= b.len(),
    ensures
        stays(dec_take(b, pos, n), dec_take(b + rest, pos, n), pos, b.len() as int),
        stays(dec_be(b, pos, n), dec_be(b + rest, pos, n), pos, b.len() as int),
{
    if pos + n <= b.len() {
        assert((b + rest).subrange(pos, pos + n) =~= b.subrange(pos, pos + n));
    }
}

/// What stands behind a length-prefixed run of bytes plays no part in it.
pub proof fn lemma_blob_stays(b: Seq<u8>, rest: Seq<u8>, pos: int)
    requires
        0 <= pos <= b.len(),
    ensures
        stays(dec_blob(b, pos), dec_blob(b + rest, pos), pos, b.len() as int),
{
    lemma_take_stays(b, rest, pos, 4);
    match dec_be(b, pos, 4) {
        Parsed::Done(n, e) => lemma_take_stays(b, rest, e, n),
        Parsed::Fail(_) => {},
    }
}

/// Checks that `n` more bytes are there.
pub fn need(b: &[u8], pos: usize, n: usize) -> (r: Result<(), Error>)
    requires
        pos <= b@.len(),
    ensures
        match r {
            Ok(_) => pos + n <= b@.len() && pos + n <= usize::MAX,
            Err(e) => pos + n > b@.len() && e@ == decode_error(truncated(b@, pos as int, n as nat)),
        },
{
    if n > b.len() - pos {
        let mut msg = text("truncated artifact: needed ");
        push_decimal(&mut msg, n as u128);
        msg.append(" bytes at offset ");
        push_decimal(&mut msg, pos as u128);
        msg.append(", had ");
        push_decimal(&mut msg, (b.len() - pos) as u128);
        Err(decode_err(msg))
    } else {
        Ok(())
    }
}

/// Reads `n` bytes as a big-endian number.
pub fn read_be(b: &[u8], pos: &mut usize, n: usize) -> (r: Result<u128, Error>)
    requires
        *old(pos) <= b@.len(),
        n <= 16,
    ensures
        match dec_be(b@, *old(pos) as int, n as nat) {
            Parsed::Done(v, e) => r matches Ok(x) && x == v && x < pow256(n as nat) && *final(pos) == e
                && *old(pos) <= e <= b@.len(),
            Parsed::Fail(msg) => r matches Err(x) && x@ == decode_error(msg),
        },
{
    match need(b, *pos, n) {
        Ok(_) => {
            let v = get_be(b, *pos, n);
            *pos = *pos + n;
            Ok(v)
        },
        Err(e) => Err(e),
    }
}

/// Reading back a big-endian number.
pub proof fn lemma_be_at(v: nat, n: nat, b: Seq<u8>, pos: int)
    requires
        v < pow256(n),
        at(b, pos, be_bytes(v, n)),
    ensures
        dec_be(b, pos, n) == Parsed::Done(v, pos + n),
        be_bytes(v, n).len() == n,
{
    crate::bytes::lemma_be_round_trip(v, n);
}

impl Codec for u8 {
    type M = u8;

    open spec fn model(&self) -> u8 {
        *self
    }

    open spec fn fits(m: u8) -> bool {
        true
    }

    open spec fn enc(m: u8) -> Seq<u8> {
        seq![m]
    }

    open spec fn dec(b: Seq<u8>, pos: int) -> Parsed<u8> {
        if pos + 1 > b.len() {
            Parsed::Fail(truncated(b, pos, 1))
        } else {
            Parsed::Done(b[pos], pos + 1)
        }
    }

    fn write(&self, out: &mut Vec<u8>) {
        out.push(*self);
        assert(out@ =~= old(out)@ + seq![*self]);
    }

    fn read(b: &[u8], pos: &mut usize) -> (r: Result<u8, Error>) {
        match need(b, *pos, 1) {
            Ok(_) => {
                let v = b[*pos];
                *pos = *pos + 1;
                Ok(v)
            },
            Err(e) => Err(e),
        }
    }

    proof fn round_trip(m: u8, b: Seq<u8>, pos: int) {
        assert(b.subrange(pos, pos + 1)[0] == m);
    }

    proof fn reads_no_further(b: Seq<u8>, rest: Seq<u8>, pos: int) {
        assert(pos < b.len() ==> (b + rest)[pos] == b[pos]);
    }
}

impl Codec for bool {
    type M = bool;

    open spec fn model(&self) -> bool {
        *self
    }

    open spec fn fits(m: bool) -> bool {
        true
    }

    open spec fn enc(m: bool) -> Seq<u8> {
        seq![if m { 1u8 } else { 0u8 }]
    }

    open spec fn dec(b: Seq<u8>, pos: int) -> Parsed<bool> {
        match u8::dec(b, pos) {
            Parsed::Done(v, e) => Parsed::Done(v != 0, e),
            Parsed::Fail(m) => Parsed::Fail(m),
        }
    }

    fn write(&self, out: &mut Vec<u8>) {
        out.push(if *self { 1 } else { 0 });
        assert(out@ =~= old(out)@ + Self::enc(*self));
    }

    fn read(b: &[u8], pos: &mut usize) -> (r: Result<bool, Error>) {
        match u8::read(b, pos) {
            Ok(v) => Ok(v != 0),
            Err(e) => Err(e),
        }
    }

    proof fn round_trip(m: bool, b: Seq<u8>, pos: int) {
        u8::round_trip(if m { 1u8 } else { 0u8 }, b, pos);
    }

    proof fn reads_no_further(b: Seq<u8>, rest: Seq<u8>, pos: int) {
        u8::reads_no_further(b, rest, pos);
    }
}

impl Codec for u16 {
    type M = u16;

    open spec fn model(&self) -> u16 {
        *self
    }

    open spec fn fits(m: u16) -> bool {
        true
    }

    open spec fn enc(m: u16) -> Seq<u8> {
        be_bytes(m as nat, 2)
    }

    open spec fn dec(b: Seq<u8>, pos: int) -> Parsed<u16> {
        match dec_be(b, pos, 2) {
            Parsed::Done(v, e) => Parsed::Done(v as u16, e),
            Parsed::Fail(m) => Parsed::Fail(m),
        }
    }

    fn write(&self, out: &mut Vec<u8>) {
        push_be(out, *self as u128, 2);
    }

    fn read(b: &[u8], pos: &mut usize) -> (r: Result<u16, Error>) {
        proof {
            crate::bytes::lemma_pow256();
        }
        match read_be(b, pos, 2) {
            Ok(v) => Ok(v as u16),
            Err(e) => Err(e),
        }
    }

    proof fn round_trip(m: u16, b: Seq<u8>, pos: int) {
        crate::bytes::lemma_pow256();
        lemma_be_at(m as nat, 2, b, pos);
    }

    proof fn reads_no_further(b: Seq<u8>, rest: Seq<u8>, pos: int) {
        lemma_take_stays(b, rest, pos, 2);
    }
}

impl Codec for u32 {
    type M = u32;

    open spec fn model(&self) -> u32 {
        *self
    }

    open spec fn fits(m: u32) -> bool {
        true
    }

    open spec fn enc(m: u32) -> Seq<u8> {
        be_bytes(m as nat, 4)
    }

    open spec fn dec(b: Seq<u8>, pos: int) -> Parsed<u32> {
        match dec_be(b, pos, 4) {
            Parsed::Done(v, e) => Parsed::Done(v as u32, e),
            Parsed::Fail(m) => Parsed::Fail(m),
        }
    }

    fn write(&self, out: &mut Vec<u8>) {
        push_be(out, *self as u128, 4);
    }

    fn read(b: &[u8], pos: &mut usize) -> (r: Result<u32, Error>) {
        proof {
            crate::bytes::lemma_pow256();
        }
        match read_be(b, pos, 4) {
            Ok(v) => Ok(v as u32),
            Err(e) => Err(e),
        }
    }

    proof fn round_trip(m: u32, b: Seq<u8>, pos: int) {
        crate::bytes::lemma_pow256();
        lemma_be_at(m as nat, 4, b, pos);
    }

    proof fn reads_no_further(b: Seq<u8>, rest: Seq<u8>, pos: int) {
        lemma_take_stays(b, rest, pos, 4);
    }
}

impl Codec for u64 {
    type M = u64;

    open spec fn model(&self) -> u64 {
        *self
    }

    open spec fn fits(m: u64) -> bool {
        true
    }

    open spec fn enc(m: u64) -> Seq<u8> {
        be_bytes(m as nat, 8)
    }

    open spec fn dec(b: Seq<u8>, pos: int) -> Parsed<u64> {
        match dec_be(b, pos, 8) {
            Parsed::Done(v, e) => Parsed::Done(v as u64, e),
            Parsed::Fail(m) => Parsed::Fail(m),
        }
    }

    fn write(&self, out: &mut Vec<u8>) {
        push_be(out, *self as u128, 8);
    }

    fn read(b: &[u8], pos: &mut usize) -> (r: Result<u64, Error>) {
        proof {
            crate::bytes::lemma_pow256();
        }
        match read_be(b, pos, 8) {
            Ok(v) => Ok(v as u64),
            Err(e) => Err(e),
        }
    }

    proof fn round_trip(m: u64, b: Seq<u8>, pos: int) {
        crate::bytes::lemma_pow256();
        lemma_be_at(m as nat, 8, b, pos);
    }

    proof fn reads_no_further(b: Seq<u8>, rest: Seq<u8>, pos: int) {
        lemma_take_stays(b, rest, pos, 8);
    }
}

impl Codec for u128 {
    type M = u128;

    open spec fn model(&self) -> u128 {
        *self
    }

    open spec fn fits(m: u128) -> bool {
        true
    }

    open spec fn enc(m: u128) -> Seq<u8> {
        be_bytes(m as nat, 16)
    }

    open spec fn dec(b: Seq<u8>, pos: int) -> Parsed<u128> {
        match dec_be(b, pos, 16) {
            Parsed::Done(v, e) => Parsed::Done(v as u128, e),
            Parsed::Fail(m) => Parsed::Fail(m),
        }
    }

    fn write(&self, out: &mut Vec<u8>) {
        push_be(out, *self, 16);
    }

    fn read(b: &[u8], pos: &mut usize) -> (r: Result<u128, Error>) {
        read_be(b, pos, 16)
    }

    proof fn round_trip(m: u128, b: Seq<u8>, pos: int) {
        crate::bytes::lemma_pow256();
        lemma_be_at(m as nat, 16, b, pos);
    }

    proof fn reads_no_further(b: Seq<u8>, rest: Seq<u8>, pos: int) {
        lemma_take_stays(b, rest, pos, 16);
    }
}

/// The 32-bit pattern of a signed number.
pub open spec fn i32_bits(v: i32) -> u32 {
    if v >= 0 {
        v as u32
    } else {
        (v + 0x1_0000_0000) as u32
    }
}

/// The signed number with a 32-bit pattern.
pub open spec fn bits_i32(u: u32) -> i32 {
    if u < 0x8000_0000 {
        u as i32
    } else {
        (u - 0x1_0000_0000) as i32
    }
}

impl Codec for i32 {
    type M = i32;

    open spec fn model(&self) -> i32 {
        *self
    }

    open spec fn fits(m: i32) -> bool {
        true
    }

    open spec fn enc(m: i32) -> Seq<u8> {
        u32::enc(i32_bits(m))
    }

    open spec fn dec(b: Seq<u8>, pos: int) -> Parsed<i32> {
        match u32::dec(b, pos) {
            Parsed::Done(v, e) => Parsed::Done(bits_i32(v), e),
            Parsed::Fail(m) => Parsed::Fail(m),
        }
    }

    fn write(&self, out: &mut Vec<u8>) {
        let v = *self;
        let u: u32 = if v >= 0 { v as u32 } else { (v as i64 + 0x1_0000_0000) as u32 };
        u.write(out);
    }

    fn read(b: &[u8], pos: &mut usize) -> (r: Result<i32, Error>) {
        match u32::read(b, pos) {
            Ok(u) => Ok(if u < 0x8000_0000 { u as i32 } else { (u as i64 - 0x1_0000_0000) as i32 }),
            Err(e) => Err(e),
        }
    }

    proof fn round_trip(m: i32, b: Seq<u8>, pos: int) {
        u32::round_trip(i32_bits(m), b, pos);
    }

    proof fn reads_no_further(b: Seq<u8>, rest: Seq<u8>, pos: int) {
        u32::reads_no_further(b, rest, pos);
    }
}

/// A length-prefixed run of bytes.
pub open spec fn enc_blob(s: Seq<u8>) -> Seq<u8> {
    be_bytes(s.len(), 4) + s
}

/// Reads a length-prefixed run of bytes.
pub open spec fn dec_blob(b: Seq<u8>, pos: int) -> Parsed<Seq<u8>> {
    match dec_be(b, pos, 4) {
        Parsed::Done(n, e) => dec_take(b, e, n),
        Parsed::Fail(m) => Parsed::Fail(m),
    }
}

pub fn write_blob(out: &mut Vec<u8>, s: &[u8])
    ensures
        final(out)@ == old(out)@ + enc_blob(s@),
{
    push_be(out, s.len() as u128, 4);
    push_all(out, s);
    assert(out@ =~= old(out)@ + enc_blob(s@));
}

pub fn read_blob(b: &[u8], pos: &mut usize) -> (r: Result<Vec<u8>, Error>)
    requires
        *old(pos) <= b@.len(),
    ensures
        match dec_blob(b@, *old(pos) as int) {
            Parsed::Done(s, e) => r matches Ok(x) && x@ == s && *final(pos) == e && *old(pos) <= e
                <= b@.len(),
            Parsed::Fail(msg) => r matches Err(x) && x@ == decode_error(msg),
        },
{
    match u32::read(b, pos) {
        Ok(n) => {
            proof {
                crate::bytes::lemma_pow256();
                crate::bytes::lemma_be_val_bound(b@.subrange(*old(pos) as int, *old(pos) + 4));
            }
            match need(b, *pos, n as usize) {
                Ok(_) => {
                    let r = slice_vec(b, *pos, *pos + n as usize);
                    *pos = *pos + n as usize;
                    Ok(r)
                },
                Err(e) => Err(e),
            }
        },
        Err(e) => Err(e),
    }
}

pub proof fn lemma_blob_at(s: Seq<u8>, b: Seq<u8>, pos: int)
    requires
        s.len() < 0x1_0000_0000,
        at(b, pos, enc_blob(s)),
    ensures
        dec_blob(b, pos) == Parsed::Done(s, pos + enc_blob(s).len()),
{
    crate::bytes::lemma_pow256();
    lemma_split(b, pos, be_bytes(s.len(), 4), s);
    lemma_be_at(s.len(), 4, b, pos);
}

/// `String::from_utf8`: the text with the given bytes, if they are UTF-8.
#[verifier::external_body]
pub(crate) fn text_from_utf8(v: Vec<u8>) -> (r: Option<String>)
    ensures
        match r {
            Some(s) => valid_utf8(v@) && s@ == decode_utf8(v@),
            None => !valid_utf8(v@),
        },
{
    String::from_utf8(v).ok()
}

impl Codec for String {
    type M = Seq<char>;

    open spec fn model(&self) -> Seq<char> {
        self@
    }

    open spec fn fits(m: Seq<char>) -> bool {
        encode_utf8(m).len() < 0x1_0000_0000
    }

    open spec fn enc(m: Seq<char>) -> Seq<u8> {
        enc_blob(encode_utf8(m))
    }

    open spec fn dec(b: Seq<u8>, pos: int) -> Parsed<Seq<char>> {
        match dec_blob(b, pos) {
            Parsed::Done(s, e) => if valid_utf8(s) {
                Parsed::Done(decode_utf8(s), e)
            } else {
                Parsed::Fail("invalid utf-8 in string"@)
            },
            Parsed::Fail(m) => Parsed::Fail(m),
        }
    }

    fn write(&self, out: &mut Vec<u8>) {
        write_blob(out, self.as_str().as_bytes());
    }

    fn read(b: &[u8], pos: &mut usize) -> (r: Result<String, Error>) {
        match read_blob(b, pos) {
            Ok(v) => match text_from_utf8(v) {
                Some(s) => Ok(s),
                None => Err(decode_err(text("invalid utf-8 in string"))),
            },
            Err(e) => Err(e),
        }
    }

    proof fn round_trip(m: Seq<char>, b: Seq<u8>, pos: int) {
        lemma_blob_at(encode_utf8(m), b, pos);
        vstd::utf8::encode_utf8_valid_utf8(m);
        vstd::utf8::encode_utf8_decode_utf8(m);
    }

    proof fn reads_no_further(b: Seq<u8>, rest: Seq<u8>, pos: int) {
        lemma_blob_stays(b, rest, pos);
    }
}

impl Codec for BigInt {
    type M = int;

    open spec fn model(&self) -> int {
        self@
    }

    open spec fn fits(m: int) -> bool {
        twos_bytes(m).len() < 0x1_0000_0000
    }

    open spec fn enc(m: int) -> Seq<u8> {
        enc_blob(twos_bytes(m))
    }

    open spec fn dec(b: Seq<u8>, pos: int) -> Parsed<int> {
        match dec_blob(b, pos) {
            Parsed::Done(s, e) => Parsed::Done(twos_val(s), e),
            Parsed::Fail(m) => Parsed::Fail(m),
        }
    }

    fn write(&self, out: &mut Vec<u8>) {
        write_blob(out, self.to_signed_bytes_be().as_slice());
    }

    fn read(b: &[u8], pos: &mut usize) -> (r: Result<BigInt, Error>) {
        match read_blob(b, pos) {
            Ok(v) => Ok(BigInt::from_signed_bytes_be(v.as_slice())),
            Err(e) => Err(e),
        }
    }

    proof fn round_trip(m: int, b: Seq<u8>, pos: int) {
        lemma_blob_at(twos_bytes(m), b, pos);
        crate::bigint::lemma_twos_round_trip(m);
    }

    proof fn reads_no_further(b: Seq<u8>, rest: Seq<u8>, pos: int) {
        lemma_blob_stays(b, rest, pos);
    }
}

impl<A: Codec, B: Codec> Codec for (A, B) {
    type M = (A::M, B::M);

    open spec fn model(&self) -> (A::M, B::M) {
        (self.0.model(), self.1.model())
    }

    open spec fn fits(m: (A::M, B::M)) -> bool {
        A::fits(m.0) && B::fits(m.1)
    }

    open spec fn enc(m: (A::M, B::M)) -> Seq<u8> {
        A::enc(m.0) + B::enc(m.1)
    }

    open spec fn dec(b: Seq<u8>, pos: int) -> Parsed<(A::M, B::M)> {
        match A::dec(b, pos) {
            Parsed::Done(x, e) => match B::dec(b, e) {
                Parsed::Done(y, e2) => Parsed::Done((x, y), e2),
                Parsed::Fail(m) => Parsed::Fail(m),
            },
            Parsed::Fail(m) => Parsed::Fail(m),
        }
    }

    fn write(&self, out: &mut Vec<u8>) {
        self.0.write(out);
        self.1.write(out);
        assert(out@ =~= old(out)@ + Self::enc(self.model()));
    }

    fn read(b: &[u8], pos: &mut usize) -> (r: Result<(A, B), Error>) {
        match A::read(b, pos) {
            Ok(x) => match B::read(b, pos) {
                Ok(y) => Ok((x, y)),
                Err(e) => Err(e),
            },
            Err(e) => Err(e),
        }
    }

    proof fn round_trip(m: (A::M, B::M), b: Seq<u8>, pos: int) {
        lemma_split(b, pos, A::enc(m.0), B::enc(m.1));
        A::round_trip(m.0, b, pos);
        B::round_trip(m.1, b, pos + A::enc(m.0).len());
    }

    proof fn reads_no_further(b: Seq<u8>, rest: Seq<u8>, pos: int) {
        A::reads_no_further(b, rest, pos);
        match A::dec(b, pos) {
            Parsed::Done(_, e) => B::reads_no_further(b, rest, e),
            Parsed::Fail(_) => {},
        }
    }
}

/// The wire forms of the items of a list, in a row.
pub open spec fn enc_list<T: Codec>(s: Seq<T::M>) -> Seq<u8>
    decreases s.len(),
{
    if s.len() == 0 {
        Seq::empty()
    } else {
        enc_list::<T>(s.drop_last()) + T::enc(s.last())
    }
}

/// Reads `n` items in a row.
pub open spec fn dec_list<T: Codec>(b: Seq<u8>, pos: int, n: nat) -> Parsed<Seq<T::M>>
    decreases n,
{
    if n == 0 {
        Parsed::Done(Seq::empty(), pos)
    } else {
        match dec_list::<T>(b, pos, (n - 1) as nat) {
            Parsed::Done(s, e) => match T::dec(b, e) {
                Parsed::Done(x, e2) => Parsed::Done(s.push(x), e2),
                Parsed::Fail(m) => Parsed::Fail(m),
            },
            Parsed::Fail(m) => Parsed::Fail(m),
        }
    }
}

/// A failure among the first items is the failure of the whole list.
proof fn lemma_list_fails<T: Codec>(b: Seq<u8>, pos: int, i: nat, n: nat)
    requires
        i <= n,
        dec_list::<T>(b, pos, i) is Fail,
    ensures
        dec_list::<T>(b, pos, n) == dec_list::<T>(b, pos, i),
    decreases n,
{
    if i < n {
        lemma_list_fails::<T>(b, pos, i, (n - 1) as nat);
    }
}

proof fn lemma_list_at<T: Codec>(s: Seq<T::M>, b: Seq<u8>, pos: int)
    requires
        forall|i: int| 0 <= i < s.len() ==> T::fits(#[trigger] s[i]),
        at(b, pos, enc_list::<T>(s)),
    ensures
        dec_list::<T>(b, pos, s.len()) == Parsed::Done(s, pos + enc_list::<T>(s).len()),
    decreases s.len(),
{
    if s.len() > 0 {
        let head = enc_list::<T>(s.drop_last());
        lemma_split(b, pos, head, T::enc(s.last()));
        lemma_list_at::<T>(s.drop_last(), b, pos);
        T::round_trip(s.last(), b, pos + head.len());
        assert(s.drop_last().push(s.last()) =~= s);
    } else {
        assert(s =~= Seq::empty());
    }
}

proof fn lemma_list_stays<T: Codec>(b: Seq<u8>, rest: Seq<u8>, pos: int, n: nat)
    requires
        0 <= pos <= b.len(),
    ensures
        stays(dec_list::<T>(b, pos, n), dec_list::<T>(b + rest, pos, n), pos, b.len() as int),
    decreases n,
{
    if n > 0 {
        lemma_list_stays::<T>(b, rest, pos, (n - 1) as nat);
        match dec_list::<T>(b, pos, (n - 1) as nat) {
            Parsed::Done(_, e) => T::reads_no_further(b, rest, e),
            Parsed::Fail(_) => {},
        }
    }
}

/// The models of the items of a vector.
pub open spec fn models<T: Codec>(s: Seq<T>) -> Seq<T::M> {
    Seq::new(s.len(), |i: int| s[i].model())
}

/// Appends the items of a slice.
pub fn write_items<T: Codec>(s: &[T], out: &mut Vec<u8>)
    ensures
        final(out)@ == old(out)@ + enc_list::<T>(models(s@)),
{
    let ghost start = out@;
    let mut i: usize = 0;
    assert(out@ =~= start + enc_list::<T>(models(s@).take(0)));
    while i < s.len()
        invariant
            i <= s@.len(),
            out@ == start + enc_list::<T>(models(s@).take(i as int)),
        decreases s@.len() - i,
    {
        s[i].write(out);
        proof {
            let t = models(s@).take(i as int + 1);
            assert(t.drop_last() =~= models(s@).take(i as int));
            assert(t.last() == s@[i as int].model());
            assert(out@ =~= start + enc_list::<T>(t));
        }
        i = i + 1;
    }
    assert(models(s@).take(i as int) =~= models(s@));
}

impl<T: Codec> Codec for Vec<T> {
    type M = Seq<T::M>;

    open spec fn model(&self) -> Seq<T::M> {
        models(self@)
    }

    open spec fn fits(m: Seq<T::M>) -> bool {
        m.len() < 0x1_0000_0000 && forall|i: int| 0 <= i < m.len() ==> T::fits(#[trigger] m[i])
    }

    open spec fn enc(m: Seq<T::M>) -> Seq<u8> {
        be_bytes(m.len(), 4) + enc_list::<T>(m)
    }

    open spec fn dec(b: Seq<u8>, pos: int) -> Parsed<Seq<T::M>> {
        match dec_be(b, pos, 4) {
            Parsed::Done(n, e) => dec_list::<T>(b, e, n),
            Parsed::Fail(m) => Parsed::Fail(m),
        }
    }

    fn write(&self, out: &mut Vec<u8>) {
        push_be(out, self.len() as u128, 4);
        write_items(self.as_slice(), out);
        assert(out@ =~= old(out)@ + Self::enc(self.model()));
    }

    fn read(b: &[u8], pos: &mut usize) -> (r: Result<Vec<T>, Error>) {
        let ghost p0 = *pos as int;
        let n = match u32::read(b, pos) {
            Ok(n) => n,
            Err(e) => return Err(e),
        };
        proof {
            crate::bytes::lemma_pow256();
            crate::bytes::lemma_be_val_bound(b@.subrange(p0, p0 + 4));
        }
        let ghost p1 = *pos as int;
        assert(dec_be(b@, p0, 4) == Parsed::Done(n as nat, p1));
        let mut v: Vec<T> = Vec::new();
        let mut i: u32 = 0;
        assert(models(v@) =~= Seq::empty());
        while i < n
            invariant
                i <= n,
                p0 == *old(pos),
                p0 <= p1 <= *pos <= b@.len(),
                dec_list::<T>(b@, p1, i as nat) == Parsed::Done(models(v@), *pos as int),
                dec_be(b@, p0, 4) == Parsed::Done(n as nat, p1),
            decreases n - i,
        {
            let ghost before = *pos as int;
            match T::read(b, pos) {
                Ok(x) => {
                    let ghost w = models(v@);
                    v.push(x);
                    assert(models(v@) =~= w.push(x.model()));
                    i = i + 1;
                },
                Err(e) => {
                    proof {
                        lemma_list_fails::<T>(b@, p1, (i + 1) as nat, n as nat);
                    }
                    return Err(e);
                },
            }
        }
        Ok(v)
    }

    proof fn round_trip(m: Seq<T::M>, b: Seq<u8>, pos: int) {
        crate::bytes::lemma_pow256();
        lemma_split(b, pos, be_bytes(m.len(), 4), enc_list::<T>(m));
        lemma_be_at(m.len(), 4, b, pos);
        lemma_list_at::<T>(m, b, pos + 4);
    }

    proof fn reads_no_further(b: Seq<u8>, rest: Seq<u8>, pos: int) {
        lemma_take_stays(b, rest, pos, 4);
        match dec_be(b, pos, 4) {
            Parsed::Done(n, e) => lemma_list_stays::<T>(b, rest, e, n),
            Parsed::Fail(_) => {},
        }
    }
}

} // verus!
