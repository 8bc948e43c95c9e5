//! Integers of any size.
//!
//! A [`BigInt`] holds a sign and a magnitude as plain bytes; the arithmetic on
//! it is done by the `num-bigint` crate.

use vstd::prelude::*;
use vstd::arithmetic::power2::pow2;
use crate::bytes::be_val;
use crate::text::decimal;

verus! {

/// An integer: a sign and the big-endian bytes of the magnitude.
#[derive(Debug, Clone)]
pub struct BigInt {
    pub neg: bool,
    pub mag: Vec<u8>,
}

/// The integer with the given sign and big-endian magnitude.
pub open spec fn signed(neg: bool, mag: Seq<u8>) -> int {
    if neg {
        -(be_val(mag) as int)
    } else {
        be_val(mag) as int
    }
}

impl View for BigInt {
    type V = int;

    open spec fn view(&self) -> int {
        signed(self.neg, self.mag@)
    }
}

/// The shortest two's-complement form of `v`, most significant byte first.
pub open spec fn twos_bytes(v: int) -> Seq<u8>
    decreases if v < 0 { -v } else { v },
{
    if -128 <= v < 128 {
        seq![(v % 256) as u8]
    } else {
        twos_bytes(v / 256).push((v % 256) as u8)
    }
}

/// The integer that a two's-complement byte sequence spells; none spells zero.
pub open spec fn twos_val(s: Seq<u8>) -> int
    decreases s.len(),
{
    if s.len() == 0 {
        0
    } else if s.len() == 1 {
        if s[0] < 128 {
            s[0] as int
        } else {
            s[0] - 256
        }
    } else {
        twos_val(s.drop_last()) * 256 + s.last()
    }
}

/// An integer is what its two's-complement bytes spell.
pub proof fn lemma_twos_round_trip(v: int)
    ensures
        twos_val(twos_bytes(v)) == v,
        twos_bytes(v).len() >= 1,
    decreases if v < 0 { -v } else { v },
{
    if !(-128 <= v < 128) {
        lemma_twos_round_trip(v / 256);
        assert(twos_bytes(v).drop_last() =~= twos_bytes(v / 256));
    }
}

/// The decimal form of an integer: an optional minus sign, then digits.
pub open spec fn decimal_int(v: int) -> Seq<char> {
    if v < 0 {
        seq!['-'] + decimal((-v) as nat)
    } else {
        decimal(v as nat)
    }
}

/// The number that a run of decimal digits spells.
pub open spec fn digits_val(s: Seq<u8>) -> nat
    decreases s.len(),
{
    if s.len() == 0 {
        0
    } else {
        digits_val(s.drop_last()) * 10 + (s.last() - 48) as nat
    }
}

/// An optional minus sign followed by at least one decimal digit.
pub open spec fn is_int_literal(s: Seq<u8>) -> bool {
    let d = if s.len() > 0 && s[0] == 45 { s.skip(1) } else { s };
    d.len() > 0 && forall|i: int| 0 <= i < d.len() ==> 48 <= #[trigger] d[i] <= 57
}

/// The integer that such a literal spells.
pub open spec fn int_literal_val(s: Seq<u8>) -> int {
    if s.len() > 0 && s[0] == 45 {
        -(digits_val(s.skip(1)) as int)
    } else {
        digits_val(s) as int
    }
}

/// `BigInt::to_signed_bytes_be`: the shortest two's-complement bytes.
#[verifier::external_body]
fn num_signed_bytes(neg: bool, mag: &[u8]) -> (r: Vec<u8>)
    ensures
        r@ == twos_bytes(signed(neg, mag@)),
{
    let sign = if neg { num_bigint::Sign::Minus } else { num_bigint::Sign::Plus };
    num_bigint::BigInt::from_bytes_be(sign, mag).to_signed_bytes_be()
}

/// `BigInt::from_signed_bytes_be`: reads two's-complement bytes.
#[verifier::external_body]
fn num_from_signed_bytes(b: &[u8]) -> (r: (bool, Vec<u8>))
    ensures
        signed(r.0, r.1@) == twos_val(b@),
{
    let (sign, mag) = num_bigint::BigInt::from_signed_bytes_be(b).to_bytes_be();
    (sign == num_bigint::Sign::Minus, mag)
}

/// `BigInt::parse_bytes` in base ten, on an optional minus sign and digits.
#[verifier::external_body]
fn num_parse(b: &[u8]) -> (r: Option<(bool, Vec<u8>)>)
    requires
        is_int_literal(b@),
    ensures
        match r {
            Some(p) => signed(p.0, p.1@) == int_literal_val(b@),
            None => false,
        },
{
    let (sign, mag) = num_bigint::BigInt::parse_bytes(b, 10)?.to_bytes_be();
    Some((sign == num_bigint::Sign::Minus, mag))
}

/// `BigInt::to_string`: the decimal form.
#[verifier::external_body]
fn num_to_string(neg: bool, mag: &[u8]) -> (r: String)
    ensures
        r@ == decimal_int(signed(neg, mag@)),
{
    let sign = if neg { num_bigint::Sign::Minus } else { num_bigint::Sign::Plus };
    num_bigint::BigInt::from_bytes_be(sign, mag).to_string()
}

/// `<` on `BigInt`: the order of the integers.
#[verifier::external_body]
fn num_less(aneg: bool, amag: &[u8], bneg: bool, bmag: &[u8]) -> (r: bool)
    ensures
        r == (signed(aneg, amag@) < signed(bneg, bmag@)),
{
    let asign = if aneg { num_bigint::Sign::Minus } else { num_bigint::Sign::Plus };
    let bsign = if bneg { num_bigint::Sign::Minus } else { num_bigint::Sign::Plus };
    num_bigint::BigInt::from_bytes_be(asign, amag) < num_bigint::BigInt::from_bytes_be(bsign, bmag)
}

/// The quotient rounded toward zero.
pub open spec fn quot(a: int, b: int) -> int {
    if a >= 0 {
        if b >= 0 {
            a / b
        } else {
            -(a / (-b))
        }
    } else if b >= 0 {
        -((-a) / b)
    } else {
        (-a) / (-b)
    }
}

/// What is left over by [`quot`]; it has the sign of `a`.
pub open spec fn rest(a: int, b: int) -> int {
    a - b * quot(a, b)
}

/// The `k`-th bit of an integer in two's complement, which for a negative number
/// has ones without end.
pub open spec fn bit(a: int, k: nat) -> bool {
    (a / pow2(k) as int) % 2 == 1
}

/// `+` on `BigInt`.
#[verifier::external_body]
fn num_add(a: &BigInt, b: &BigInt) -> (r: BigInt)
    ensures
        r@ == a@ + b@,
{
    let asign = if a.neg { num_bigint::Sign::Minus } else { num_bigint::Sign::Plus };
    let bsign = if b.neg { num_bigint::Sign::Minus } else { num_bigint::Sign::Plus };
    let x = num_bigint::BigInt::from_bytes_be(asign, &a.mag);
    let y = num_bigint::BigInt::from_bytes_be(bsign, &b.mag);
    let (sign, mag) = (x + y).to_bytes_be();
    BigInt { neg: sign == num_bigint::Sign::Minus, mag }
}

/// `-` on `BigInt`.
#[verifier::external_body]
fn num_sub(a: &BigInt, b: &BigInt) -> (r: BigInt)
    ensures
        r@ == a@ - b@,
{
    let asign = if a.neg { num_bigint::Sign::Minus } else { num_bigint::Sign::Plus };
    let bsign = if b.neg { num_bigint::Sign::Minus } else { num_bigint::Sign::Plus };
    let x = num_bigint::BigInt::from_bytes_be(asign, &a.mag);
    let y = num_bigint::BigInt::from_bytes_be(bsign, &b.mag);
    let (sign, mag) = (x - y).to_bytes_be();
    BigInt { neg: sign == num_bigint::Sign::Minus, mag }
}

/// `*` on `BigInt`.
#[verifier::external_body]
fn num_mul(a: &BigInt, b: &BigInt) -> (r: BigInt)
    ensures
        r@ == a@ * b@,
{
    let asign = if a.neg { num_bigint::Sign::Minus } else { num_bigint::Sign::Plus };
    let bsign = if b.neg { num_bigint::Sign::Minus } else { num_bigint::Sign::Plus };
    let x = num_bigint::BigInt::from_bytes_be(asign, &a.mag);
    let y = num_bigint::BigInt::from_bytes_be(bsign, &b.mag);
    let (sign, mag) = (x * y).to_bytes_be();
    BigInt { neg: sign == num_bigint::Sign::Minus, mag }
}

/// `/` on `BigInt`: the quotient rounded toward zero.
#[verifier::external_body]
fn num_div(a: &BigInt, b: &BigInt) -> (r: BigInt)
    requires
        b@ != 0,
    ensures
        r@ == quot(a@, b@),
{
    let asign = if a.neg { num_bigint::Sign::Minus } else { num_bigint::Sign::Plus };
    let bsign = if b.neg { num_bigint::Sign::Minus } else { num_bigint::Sign::Plus };
    let x = num_bigint::BigInt::from_bytes_be(asign, &a.mag);
    let y = num_bigint::BigInt::from_bytes_be(bsign, &b.mag);
    let (sign, mag) = (x / y).to_bytes_be();
    BigInt { neg: sign == num_bigint::Sign::Minus, mag }
}

/// `%` on `BigInt`: what the quotient leaves over.
#[verifier::external_body]
fn num_rem(a: &BigInt, b: &BigInt) -> (r: BigInt)
    requires
        b@ != 0,
    ensures
        r@ == rest(a@, b@),
{
    let asign = if a.neg { num_bigint::Sign::Minus } else { num_bigint::Sign::Plus };
    let bsign = if b.neg { num_bigint::Sign::Minus } else { num_bigint::Sign::Plus };
    let x = num_bigint::BigInt::from_bytes_be(asign, &a.mag);
    let y = num_bigint::BigInt::from_bytes_be(bsign, &b.mag);
    let (sign, mag) = (x % y).to_bytes_be();
    BigInt { neg: sign == num_bigint::Sign::Minus, mag }
}

/// `&` on `BigInt`, bit by bit in two's complement.
#[verifier::external_body]
fn num_and(a: &BigInt, b: &BigInt) -> (r: BigInt)
    ensures
        forall|k: nat| #[trigger] bit(r@, k) == (bit(a@, k) && bit(b@, k)),
{
    let asign = if a.neg { num_bigint::Sign::Minus } else { num_bigint::Sign::Plus };
    let bsign = if b.neg { num_bigint::Sign::Minus } else { num_bigint::Sign::Plus };
    let x = num_bigint::BigInt::from_bytes_be(asign, &a.mag);
    let y = num_bigint::BigInt::from_bytes_be(bsign, &b.mag);
    let (sign, mag) = (x & y).to_bytes_be();
    BigInt { neg: sign == num_bigint::Sign::Minus, mag }
}

/// `|` on `BigInt`, bit by bit in two's complement.
#[verifier::external_body]
fn num_or(a: &BigInt, b: &BigInt) -> (r: BigInt)
    ensures
        forall|k: nat| #[trigger] bit(r@, k) == (bit(a@, k) || bit(b@, k)),
{
    let asign = if a.neg { num_bigint::Sign::Minus } else { num_bigint::Sign::Plus };
    let bsign = if b.neg { num_bigint::Sign::Minus } else { num_bigint::Sign::Plus };
    let x = num_bigint::BigInt::from_bytes_be(asign, &a.mag);
    let y = num_bigint::BigInt::from_bytes_be(bsign, &b.mag);
    let (sign, mag) = (x | y).to_bytes_be();
    BigInt { neg: sign == num_bigint::Sign::Minus, mag }
}

/// `^` on `BigInt`, bit by bit in two's complement.
#[verifier::external_body]
fn num_xor(a: &BigInt, b: &BigInt) -> (r: BigInt)
    ensures
        forall|k: nat| #[trigger] bit(r@, k) == (bit(a@, k) != bit(b@, k)),
{
    let asign = if a.neg { num_bigint::Sign::Minus } else { num_bigint::Sign::Plus };
    let bsign = if b.neg { num_bigint::Sign::Minus } else { num_bigint::Sign::Plus };
    let x = num_bigint::BigInt::from_bytes_be(asign, &a.mag);
    let y = num_bigint::BigInt::from_bytes_be(bsign, &b.mag);
    let (sign, mag) = (x ^ y).to_bytes_be();
    BigInt { neg: sign == num_bigint::Sign::Minus, mag }
}

/// `<<` on `BigInt`.
#[verifier::external_body]
fn num_shl(a: &BigInt, n: u32) -> (r: BigInt)
    ensures
        r@ == a@ * pow2(n as nat),
{
    let asign = if a.neg { num_bigint::Sign::Minus } else { num_bigint::Sign::Plus };
    let x = num_bigint::BigInt::from_bytes_be(asign, &a.mag);
    let (sign, mag) = (x << n).to_bytes_be();
    BigInt { neg: sign == num_bigint::Sign::Minus, mag }
}

/// `>>` on `BigInt`: rounds down.
#[verifier::external_body]
fn num_shr(a: &BigInt, n: u32) -> (r: BigInt)
    ensures
        r@ == a@ / pow2(n as nat) as int,
{
    let asign = if a.neg { num_bigint::Sign::Minus } else { num_bigint::Sign::Plus };
    let x = num_bigint::BigInt::from_bytes_be(asign, &a.mag);
    let (sign, mag) = (x >> n).to_bytes_be();
    BigInt { neg: sign == num_bigint::Sign::Minus, mag }
}

/// `ToPrimitive::to_i64` of `BigInt`: the integer, if it is in range.
#[verifier::external_body]
fn num_to_i64(a: &BigInt) -> (r: Option<i64>)
    ensures
        match r {
            Some(v) => v == a@,
            None => a@ < i64::MIN || a@ > i64::MAX,
        },
{
    let asign = if a.neg { num_bigint::Sign::Minus } else { num_bigint::Sign::Plus };
    num_traits::ToPrimitive::to_i64(&num_bigint::BigInt::from_bytes_be(asign, &a.mag))
}

/// `ToPrimitive::to_u64` of `BigInt`: the integer, if it is in range.
#[verifier::external_body]
fn num_to_u64(a: &BigInt) -> (r: Option<u64>)
    ensures
        match r {
            Some(v) => v == a@,
            None => a@ < u64::MIN || a@ > u64::MAX,
        },
{
    let asign = if a.neg { num_bigint::Sign::Minus } else { num_bigint::Sign::Plus };
    num_traits::ToPrimitive::to_u64(&num_bigint::BigInt::from_bytes_be(asign, &a.mag))
}

/// `ToPrimitive::to_u128` of `BigInt`: the integer, if it is in range.
#[verifier::external_body]
fn num_to_u128(a: &BigInt) -> (r: Option<u128>)
    ensures
        match r {
            Some(v) => v == a@,
            None => a@ < u128::MIN || a@ > u128::MAX,
        },
{
    let asign = if a.neg { num_bigint::Sign::Minus } else { num_bigint::Sign::Plus };
    num_traits::ToPrimitive::to_u128(&num_bigint::BigInt::from_bytes_be(asign, &a.mag))
}

impl BigInt {
    /// A small integer.
    pub fn from_i64(v: i64) -> (r: BigInt)
        ensures
            r@ == v,
    {
        let neg = v < 0;
        let m: u128 = if neg { (0 - v as i128) as u128 } else { v as u128 };
        let mut mag: Vec<u8> = Vec::new();
        crate::bytes::push_be(&mut mag, m, 16);
        proof {
            crate::bytes::lemma_pow256();
            crate::bytes::lemma_be_round_trip(m as nat, 16);
            assert(mag@ =~= crate::bytes::be_bytes(m as nat, 16));
        }
        BigInt { neg, mag }
    }

    /// An unsigned machine integer.
    pub fn from_u128(v: u128) -> (r: BigInt)
        ensures
            r@ == v,
    {
        let mut mag: Vec<u8> = Vec::new();
        crate::bytes::push_be(&mut mag, v, 16);
        proof {
            crate::bytes::lemma_pow256();
            crate::bytes::lemma_be_round_trip(v as nat, 16);
            assert(mag@ =~= crate::bytes::be_bytes(v as nat, 16));
        }
        BigInt { neg: false, mag }
    }

    pub fn to_signed_bytes_be(&self) -> (r: Vec<u8>)
        ensures
            r@ == twos_bytes(self@),
    {
        num_signed_bytes(self.neg, self.mag.as_slice())
    }

    pub fn from_signed_bytes_be(b: &[u8]) -> (r: BigInt)
        ensures
            r@ == twos_val(b@),
    {
        let (neg, mag) = num_from_signed_bytes(b);
        BigInt { neg, mag }
    }

    /// The integer that a literal spells: an optional minus sign, then digits.
    pub fn parse(b: &[u8]) -> (r: Option<BigInt>)
        requires
            is_int_literal(b@),
        ensures
            r matches Some(n) && n@ == int_literal_val(b@),
    {
        match num_parse(b) {
            Some((neg, mag)) => Some(BigInt { neg, mag }),
            None => None,
        }
    }

    pub fn to_string(&self) -> (r: String)
        ensures
            r@ == decimal_int(self@),
    {
        num_to_string(self.neg, self.mag.as_slice())
    }

    pub fn less(&self, other: &BigInt) -> (r: bool)
        ensures
            r == (self@ < other@),
    {
        num_less(self.neg, self.mag.as_slice(), other.neg, other.mag.as_slice())
    }

    /// Whether two values are the same integer.
    pub fn same(&self, other: &BigInt) -> (r: bool)
        ensures
            r == (self@ == other@),
    {
        !self.less(other) && !other.less(self)
    }

    /// A copy.
    pub fn copy(&self) -> (r: BigInt)
        ensures
            r@ == self@,
    {
        let mut mag: Vec<u8> = Vec::new();
        crate::bytes::push_all(&mut mag, self.mag.as_slice());
        assert(mag@ =~= self.mag@);
        BigInt { neg: self.neg, mag }
    }

    pub fn plus(&self, other: &BigInt) -> (r: BigInt)
        ensures
            r@ == self@ + other@,
    {
        num_add(self, other)
    }

    pub fn minus(&self, other: &BigInt) -> (r: BigInt)
        ensures
            r@ == self@ - other@,
    {
        num_sub(self, other)
    }

    pub fn times(&self, other: &BigInt) -> (r: BigInt)
        ensures
            r@ == self@ * other@,
    {
        num_mul(self, other)
    }

    pub fn quotient(&self, other: &BigInt) -> (r: BigInt)
        requires
            other@ != 0,
        ensures
            r@ == quot(self@, other@),
    {
        num_div(self, other)
    }

    pub fn remainder(&self, other: &BigInt) -> (r: BigInt)
        requires
            other@ != 0,
        ensures
            r@ == rest(self@, other@),
    {
        num_rem(self, other)
    }

    pub fn bit_and(&self, other: &BigInt) -> (r: BigInt)
        ensures
            forall|k: nat| #[trigger] bit(r@, k) == (bit(self@, k) && bit(other@, k)),
    {
        num_and(self, other)
    }

    pub fn bit_or(&self, other: &BigInt) -> (r: BigInt)
        ensures
            forall|k: nat| #[trigger] bit(r@, k) == (bit(self@, k) || bit(other@, k)),
    {
        num_or(self, other)
    }

    pub fn bit_xor(&self, other: &BigInt) -> (r: BigInt)
        ensures
            forall|k: nat| #[trigger] bit(r@, k) == (bit(self@, k) != bit(other@, k)),
    {
        num_xor(self, other)
    }

    pub fn shifted_left(&self, n: u32) -> (r: BigInt)
        ensures
            r@ == self@ * pow2(n as nat),
    {
        num_shl(self, n)
    }

    /// The integer divided by a power of two, rounded down.
    pub fn shifted_right(&self, n: u32) -> (r: BigInt)
        ensures
            r@ == self@ / pow2(n as nat) as int,
    {
        num_shr(self, n)
    }

    pub fn to_i64(&self) -> (r: Option<i64>)
        ensures
            match r {
                Some(v) => v == self@,
                None => self@ < i64::MIN || self@ > i64::MAX,
            },
    {
        num_to_i64(self)
    }

    pub fn to_u64(&self) -> (r: Option<u64>)
        ensures
            match r {
                Some(v) => v == self@,
                None => self@ < 0 || self@ > u64::MAX,
            },
    {
        num_to_u64(self)
    }

    pub fn to_u128(&self) -> (r: Option<u128>)
        ensures
            match r {
                Some(v) => v == self@,
                None => self@ < 0 || self@ > u128::MAX,
            },
    {
        num_to_u128(self)
    }
}

} // verus!
