//! 64-bit binary floats and decimal texts.
//!
//! A float is its bit pattern. Its value is a whole number of units of
//! 2^-1074, so all that is said of values here is said of integers.

use vstd::prelude::*;
use vstd::arithmetic::power2::{
    lemma_pow2_pos, lemma_pow2_strictly_increases, lemma_pow2_unfold, pow2,
};
use crate::bigint::BigInt;
use crate::text::{decimal, push_char};

verus! {

/// The bits of a positive infinity; the bits of smaller values are below it.
pub const INFINITE: u64 = 0x7ff0_0000_0000_0000;

/// The bit that makes a float negative.
pub const SIGN: u64 = 0x8000_0000_0000_0000;

/// The value of the non-negative float with the given bits, in units of 2^-1074.
/// Infinity counts as the value that would come next.
pub open spec fn units(b: nat) -> nat {
    if b < 0x10_0000_0000_0000 {
        b
    } else {
        (0x10_0000_0000_0000 + b % 0x10_0000_0000_0000) * pow2((b / 0x10_0000_0000_0000 - 1) as nat)
    }
}

pub open spec fn ten(n: nat) -> nat
    decreases n,
{
    if n == 0 {
        1
    } else {
        10 * ten((n - 1) as nat)
    }
}

/// The decimal number d * 10^e is a fraction of units: its numerator.
pub open spec fn top(d: nat, e: int) -> nat {
    d * ten(if e > 0 { e as nat } else { 0 }) * pow2(1074)
}

/// Its denominator.
pub open spec fn bottom(e: int) -> nat {
    ten(if e < 0 { (-e) as nat } else { 0 })
}

/// Whether d * 10^e is large enough to round to the float `b` or above: at least
/// half way from the float below, where half way goes to the even one.
pub open spec fn reaches(d: nat, e: int, b: nat) -> bool {
    if b == 0 {
        true
    } else {
        let half = (units((b - 1) as nat) + units(b)) * bottom(e);
        if b % 2 == 0 {
            half <= 2 * top(d, e)
        } else {
            half < 2 * top(d, e)
        }
    }
}

/// Whether `b` is the float nearest to d * 10^e.
pub open spec fn is_nearest(d: nat, e: int, b: nat) -> bool {
    b <= INFINITE && reaches(d, e, b) && (b == INFINITE || !reaches(d, e, b + 1))
}

/// The float nearest to d * 10^e.
pub open spec fn nearest(d: nat, e: int) -> nat {
    choose|b: nat| is_nearest(d, e, b)
}

proof fn lemma_units_grow(b: nat)
    ensures
        units(b) < units(b + 1),
{
    let m: nat = 0x10_0000_0000_0000;
    if b + 1 < m {
    } else if b + 1 == m {
        vstd::arithmetic::power2::lemma2_to64();
        assert((b + 1) % m == 0 && (b + 1) / m == 1);
        assert(((b + 1) / m - 1) as nat == 0);
        assert(units(b + 1) == m * 1);
    } else {
        let q = b / m;
        let r = b % m;
        lemma_pow2_pos((q - 1) as nat);
        let p = pow2((q - 1) as nat);
        if r + 1 < m {
            assert((b + 1) / m == q && (b + 1) % m == r + 1);
            assert(units(b + 1) == (m + r + 1) * p);
            assert((m + r) * p < (m + r + 1) * p) by (nonlinear_arith)
                requires
                    p > 0,
            ;
        } else {
            assert((b + 1) / m == q + 1 && (b + 1) % m == 0);
            assert(units(b + 1) == m * pow2(q));
            lemma_pow2_unfold(q);
            assert(pow2(q) == 2 * p);
            assert((m + r) * p < m * (2 * p)) by (nonlinear_arith)
                requires
                    p > 0,
                    r < m,
            ;
        }
    }
}

proof fn lemma_reaches_down(d: nat, e: int, b: nat, c: nat)
    requires
        reaches(d, e, b),
        c <= b,
    ensures
        reaches(d, e, c),
    decreases b - c,
{
    if c < b {
        let a = (b - 1) as nat;
        lemma_units_grow(a);
        if a > 0 {
            lemma_units_grow((a - 1) as nat);
            let x = units((a - 1) as nat) + units(a);
            let y = units(a) + units(b);
            lemma_bottom_pos(e);
            assert(x * bottom(e) < y * bottom(e)) by (nonlinear_arith)
                requires
                    x < y,
                    bottom(e) > 0,
            ;
        }
        lemma_reaches_down(d, e, a, c);
    }
}

proof fn lemma_ten_pos(n: nat)
    ensures
        ten(n) > 0,
    decreases n,
{
    if n > 0 {
        lemma_ten_pos((n - 1) as nat);
    }
}

proof fn lemma_bottom_pos(e: int)
    ensures
        bottom(e) > 0,
{
    lemma_ten_pos(if e < 0 { (-e) as nat } else { 0 });
}

/// The nearest float is unique.
pub proof fn nearest_is_unique(d: nat, e: int, b: nat, c: nat)
    requires
        is_nearest(d, e, b),
        is_nearest(d, e, c),
    ensures
        b == c,
{
    if b < c {
        lemma_reaches_down(d, e, c, b + 1);
    } else if c < b {
        lemma_reaches_down(d, e, b, c + 1);
    }
}

proof fn lemma_nearest(d: nat, e: int, b: nat)
    requires
        is_nearest(d, e, b),
    ensures
        nearest(d, e) == b,
{
    nearest_is_unique(d, e, b, nearest(d, e));
}

proof fn lemma_ten_big(n: nat)
    ensures
        ten(n) >= pow2(3 * n),
    decreases n,
{
    if n == 0 {
        vstd::arithmetic::power2::lemma2_to64();
    } else {
        let m = (n - 1) as nat;
        lemma_ten_big(m);
        lemma_pow2_unfold((3 * m + 1) as nat);
        lemma_pow2_unfold((3 * m + 2) as nat);
        lemma_pow2_unfold((3 * m + 3) as nat);
    }
}

proof fn lemma_ten_sum(a: nat, b: nat)
    ensures
        ten(a + b) == ten(a) * ten(b),
    decreases a,
{
    if a > 0 {
        lemma_ten_sum((a - 1) as nat, b);
        assert(10 * (ten((a - 1) as nat) * ten(b)) == (10 * ten((a - 1) as nat)) * ten(b))
            by (nonlinear_arith);
    } else {
        assert(1 * ten(b) == ten(b));
    }
}

/// A positive number of such a magnitude is beyond all finite floats.
proof fn lemma_huge(d: nat, e: int)
    requires
        d > 0,
        e >= 342,
    ensures
        nearest(d, e) == INFINITE,
{
    let b: nat = INFINITE as nat;
    lemma_ten_big(e as nat);
    lemma_pow2_strictly_increases(1024, 3 * e as nat);
    assert(ten(e as nat) >= pow2(1024));
    lemma_units_grow((b - 1) as nat);
    assert(b % 0x10_0000_0000_0000 == 0 && b / 0x10_0000_0000_0000 == 2047);
    assert(units(b) == 0x10_0000_0000_0000 * pow2(2046));
    vstd::arithmetic::power2::lemma_pow2_adds(52, 2046);
    lemma_pow2_literal();
    assert(units(b) == pow2(2098));
    vstd::arithmetic::power2::lemma_pow2_adds(1024, 1074);
    assert(bottom(e) == 1);
    let t = ten(e as nat);
    assert(d * t * pow2(1074) >= pow2(1024) * pow2(1074)) by (nonlinear_arith)
        requires
            d >= 1,
            t >= pow2(1024),
            pow2(1074) >= 0,
    ;
    assert((units((b - 1) as nat) + units(b)) * bottom(e) == units((b - 1) as nat) + units(b));
    assert(is_nearest(d, e, b));
    lemma_nearest(d, e, b);
}

proof fn lemma_pow2_literal()
    ensures
        pow2(52) == 0x10_0000_0000_0000,
{
    vstd::arithmetic::power2::lemma2_to64();
    vstd::arithmetic::power2::lemma2_to64_rest();
}

/// A number of so many places after the point is below all positive floats.
proof fn lemma_tiny(d: nat, e: int, n: nat)
    requires
        d <= ten(n),
        e <= -(n + 360),
    ensures
        nearest(d, e) == 0,
{
    let m = (-e - n) as nat;
    lemma_ten_sum(n, m);
    lemma_ten_big(m);
    lemma_pow2_strictly_increases(1075, 3 * m);
    lemma_ten_pos(n);
    lemma_pow2_unfold(1075);
    lemma_pow2_pos(1074);
    let t = ten(m);
    assert(bottom(e) == ten(n) * t);
    assert(top(d, e) == d * 1 * pow2(1074));
    assert(ten(n) * t > ten(n) * (2 * pow2(1074))) by (nonlinear_arith)
        requires
            ten(n) > 0,
            t > 2 * pow2(1074),
    ;
    assert(2 * (d * pow2(1074)) <= ten(n) * (2 * pow2(1074))) by (nonlinear_arith)
        requires
            d <= ten(n),
            pow2(1074) > 0,
    ;
    assert(d * 1 * pow2(1074) == d * pow2(1074));
    assert(units(0) == 0 && units(1) == 1);
    let one = units(0) + units(1);
    assert(one * bottom(e) == bottom(e)) by (nonlinear_arith)
        requires
            one == 1,
    ;
    assert(!reaches(d, e, 1));
    assert(is_nearest(d, e, 0));
    lemma_nearest(d, e, 0);
}

/// Two exponents that are both far above what counts, or both far below, give
/// the same float.
pub proof fn far_exponents_agree(d: nat, n: nat, e: int, f: int)
    requires
        d <= ten(n),
        (e >= 342 && f >= 342) || (e <= -(n + 360) && f <= -(n + 360)),
    ensures
        nearest(d, e) == nearest(d, f),
{
    if d == 0 {
        zero_is_nearest_to_zero(e);
        zero_is_nearest_to_zero(f);
    } else if e >= 342 {
        lemma_huge(d, e);
        lemma_huge(d, f);
    } else {
        lemma_tiny(d, e, n);
        lemma_tiny(d, f, n);
    }
}

/// No digits but zeros spell zero.
pub proof fn zero_is_nearest_to_zero(e: int)
    ensures
        nearest(0, e) == 0,
{
    assert(units(0) == 0 && units(1) == 1);
    assert(top(0, e) == 0) by (nonlinear_arith)
        requires
            top(0, e) == 0 * ten(if e > 0 { e as nat } else { 0 }) * pow2(1074),
    ;
    lemma_bottom_pos(e);
    let one = units(0) + units(1);
    assert(one * bottom(e) == bottom(e)) by (nonlinear_arith)
        requires
            one == 1,
    ;
    assert(is_nearest(0, e, 0));
    lemma_nearest(0, e, 0);
}

/// The power of ten with the given exponent.
fn power_of_ten(n: u128) -> (r: BigInt)
    ensures
        r@ == ten(n as nat),
{
    let mut r = BigInt::from_i64(1);
    let base = BigInt::from_i64(10);
    let mut i: u128 = 0;
    while i < n
        invariant
            i <= n,
            base@ == 10,
            r@ == ten(i as nat),
        decreases n - i,
    {
        r = base.times(&r);
        i = i + 1;
    }
    r
}

fn units_of(b: u64) -> (r: BigInt)
    requires
        b <= INFINITE,
    ensures
        r@ == units(b as nat),
{
    if b < 0x10_0000_0000_0000 {
        BigInt::from_u128(b as u128)
    } else {
        let m = BigInt::from_u128((0x10_0000_0000_0000 + b % 0x10_0000_0000_0000) as u128);
        let q: u64 = b / 0x10_0000_0000_0000 - 1;
        m.shifted_left(q as u32)
    }
}

/// A decimal number as a fraction of units.
struct Fraction {
    /// Twice the numerator.
    twice: BigInt,
    bottom: BigInt,
}

spec fn fraction_of(f: Fraction, d: nat, e: int) -> bool {
    f.twice@ == 2 * top(d, e) && f.bottom@ == bottom(e)
}

fn fraction(d: &BigInt, e: i128) -> (f: Fraction)
    requires
        d@ >= 0,
        -0x2_0000_0000_0000_0000 < e < 0x2_0000_0000_0000_0000,
    ensures
        fraction_of(f, d@ as nat, e as int),
{
    let up = power_of_ten(if e > 0 { e as u128 } else { 0 });
    let down = power_of_ten(if e < 0 { (0 - e) as u128 } else { 0 });
    let n = d.times(&up).shifted_left(1074);
    let twice = n.plus(&n);
    Fraction { twice, bottom: down }
}

fn does_reach(f: &Fraction, b: u64, Ghost(d): Ghost<nat>, Ghost(e): Ghost<int>) -> (r: bool)
    requires
        b <= INFINITE,
        fraction_of(*f, d, e),
    ensures
        r == reaches(d, e, b as nat),
{
    if b == 0 {
        return true;
    }
    let half = units_of(b - 1).plus(&units_of(b)).times(&f.bottom);
    if b % 2 == 0 {
        !f.twice.less(&half)
    } else {
        half.less(&f.twice)
    }
}

/// The float nearest to d * 10^e, where d has at most `n` digits.
#[verifier::rlimit(30)]
pub fn nearest_float(d: &BigInt, e: i128, n: usize) -> (r: u64)
    requires
        0 <= d@ <= ten(n as nat),
        -0x1_0000_0000_0000_0000_0000_0000_0000 < e < 0x1_0000_0000_0000_0000_0000_0000_0000,
    ensures
        r == nearest(d@ as nat, e as int),
        r <= INFINITE,
{
    let ghost dn = d@ as nat;
    let ghost ei = e as int;
    let zero = BigInt::from_i64(0);
    if !zero.less(d) {
        proof {
            zero_is_nearest_to_zero(ei);
        }
        return 0;
    }
    if e >= 342 {
        proof {
            lemma_huge(dn, ei);
        }
        return INFINITE;
    }
    if e <= -(n as i128 + 360) {
        proof {
            lemma_tiny(dn, ei, n as nat);
        }
        return 0;
    }
    let f = fraction(d, e);
    let mut low: u64 = 0;
    let mut high: u64 = INFINITE;
    if does_reach(&f, INFINITE, Ghost(dn), Ghost(ei)) {
        proof {
            assert(is_nearest(dn, ei, INFINITE as nat));
            lemma_nearest(dn, ei, INFINITE as nat);
        }
        return INFINITE;
    }
    while high - low > 1
        invariant
            low < high <= INFINITE,
            fraction_of(f, dn, ei),
            reaches(dn, ei, low as nat),
            !reaches(dn, ei, high as nat),
        decreases high - low,
    {
        let mid: u64 = low + (high - low) / 2;
        if does_reach(&f, mid, Ghost(dn), Ghost(ei)) {
            low = mid;
        } else {
            high = mid;
        }
    }
    proof {
        assert(is_nearest(dn, ei, low as nat));
        lemma_nearest(dn, ei, low as nat);
    }
    low
}

/// The exponent of the leading decimal digit of a positive float, from `k` on.
pub open spec fn lead_from(b: nat, k: int) -> int
    decreases 310 - k,
{
    if k >= 310 || units(b) * bottom(k + 1) < top(1, k + 1) {
        k
    } else {
        lead_from(b, k + 1)
    }
}

/// The largest d for which d * 10^e is not above a float.
pub open spec fn whole_part(b: nat, e: int) -> nat {
    units(b) * bottom(e) / top(1, e)
}

/// Whether a float is nearer to d * 10^e than to (d + 1) * 10^e, or as near.
pub open spec fn nearer_below(b: nat, d: nat, e: int) -> bool {
    2 * (units(b) * bottom(e)) <= (2 * d + 1) * top(1, e)
}

/// The digits that stand for a float: of the decimal numbers of `n` or more
/// digits next to it, the first that reads back as the float, and of two the
/// nearer.
pub open spec fn short_digits(b: nat, lead: int, n: int) -> (nat, int)
    decreases 17 - n,
{
    let e = lead + 1 - n;
    let d = whole_part(b, e);
    let below = is_nearest(d, e, b);
    let above = is_nearest(d + 1, e, b);
    if n < 17 && !below && !above {
        short_digits(b, lead, n + 1)
    } else if above && !below {
        (d + 1, e)
    } else if below && !above {
        (d, e)
    } else if nearer_below(b, d, e) {
        (d, e)
    } else {
        (d + 1, e)
    }
}

pub open spec fn zeros(n: int) -> Seq<char> {
    Seq::new(
        if n > 0 {
            n as nat
        } else {
            0
        },
        |i: int| '0',
    )
}

/// The decimal number d * 10^e written out, always with a point.
pub open spec fn positional(d: nat, e: int) -> Seq<char> {
    let s = decimal(d);
    if e >= 0 {
        s + zeros(e) + seq!['.', '0']
    } else if s.len() > -e {
        s.take(s.len() + e) + seq!['.'] + s.skip(s.len() + e)
    } else {
        seq!['0', '.'] + zeros(-e - s.len()) + s
    }
}

/// Whether a bit pattern is that of a finite float.
pub open spec fn finite(bits: u64) -> bool {
    magnitude_bits(bits) < INFINITE
}

/// The bits without the sign.
pub open spec fn magnitude_bits(bits: u64) -> nat {
    bits as nat % 0x8000_0000_0000_0000
}

/// The text of a finite float: the shortest digits that read back as it, with a
/// point.
pub open spec fn float_text(bits: u64) -> Seq<char> {
    let b = magnitude_bits(bits);
    let body = if b == 0 {
        seq!['0', '.', '0']
    } else {
        let p = short_digits(b, lead_from(b, -330), 1);
        positional(p.0, p.1)
    };
    if bits >= SIGN {
        seq!['-'] + body
    } else {
        body
    }
}

fn find_lead(b: u64, u: &BigInt) -> (k: i64)
    requires
        b <= INFINITE,
        u@ == units(b as nat),
    ensures
        k == lead_from(b as nat, -330),
        -330 <= k <= 310,
{
    let one = BigInt::from_i64(1);
    let mut k: i64 = -330;
    while k < 310
        invariant
            -330 <= k <= 310,
            one@ == 1,
            u@ == units(b as nat),
            lead_from(b as nat, -330) == lead_from(b as nat, k as int),
        decreases 310 - k,
    {
        let f = fraction(&one, k as i128 + 1);
        let x = u.times(&f.bottom);
        if x.plus(&x).less(&f.twice) {
            return k;
        }
        k = k + 1;
    }
    k
}

fn is_nearest_float(d: &BigInt, e: i64, b: u64) -> (r: bool)
    requires
        d@ >= 0,
        -0x1000_0000_0000_0000 < e < 0x1000_0000_0000_0000,
        b < INFINITE,
    ensures
        r == is_nearest(d@ as nat, e as int, b as nat),
{
    let f = fraction(d, e as i128);
    does_reach(&f, b, Ghost(d@ as nat), Ghost(e as int)) && !does_reach(
        &f,
        b + 1,
        Ghost(d@ as nat),
        Ghost(e as int),
    )
}

proof fn lemma_top_pos(e: int)
    ensures
        top(1, e) > 0,
{
    lemma_ten_pos(if e > 0 { e as nat } else { 0 });
    lemma_pow2_pos(1074);
    let t = ten(if e > 0 { e as nat } else { 0 });
    assert(1 * t * pow2(1074) > 0) by (nonlinear_arith)
        requires
            t > 0,
            pow2(1074) > 0,
    ;
}

#[verifier::rlimit(30)]
fn find_digits(b: u64, lead: i64, u: &BigInt) -> (r: (BigInt, i64))
    requires
        b < INFINITE,
        u@ == units(b as nat),
        -330 <= lead <= 310,
    ensures
        r.0@ >= 0,
        (r.0@ as nat, r.1 as int) == short_digits(b as nat, lead as int, 1),
        -400 <= r.1 <= 400,
{
    let one = BigInt::from_i64(1);
    let mut n: i64 = 1;
    loop
        invariant
            1 <= n <= 17,
            b < INFINITE,
            one@ == 1,
            u@ == units(b as nat),
            -330 <= lead <= 310,
            short_digits(b as nat, lead as int, 1) == short_digits(b as nat, lead as int, n as int),
        decreases 17 - n,
    {
        let e: i64 = lead + 1 - n;
        let f = fraction(&one, e as i128);
        let x = u.times(&f.bottom);
        let twice = x.plus(&x);
        proof {
            lemma_top_pos(e as int);
            lemma_bottom_pos(e as int);
            let a: int = (units(b as nat) * bottom(e as int)) as int;
            let t: int = top(1, e as int) as int;
            assert(a >= 0);
            vstd::arithmetic::div_mod::lemma_div_multiples_vanish_quotient(2, a, t);
            assert((2 * a) / (2 * t) == a / t);
        }
        let d = twice.quotient(&f.twice);
        let next = d.plus(&one);
        let below = is_nearest_float(&d, e, b);
        let above = is_nearest_float(&next, e, b);
        if n < 17 && !below && !above {
            n = n + 1;
        } else if above && !below {
            return (next, e);
        } else if below && !above {
            return (d, e);
        } else {
            let sum = d.plus(&next).times(&f.twice);
            let ghost dn = d@;
            let ghost t = top(1, e as int) as int;
            assert((dn + (dn + 1)) * (2 * t) == 2 * ((2 * dn + 1) * t)) by (nonlinear_arith);
            let four = twice.plus(&twice);
            if !sum.less(&four) {
                return (d, e);
            } else {
                return (next, e);
            }
        }
    }
}

fn push_zeros(out: &mut String, n: i64)
    ensures
        final(out)@ == old(out)@ + zeros(n as int),
{
    let mut i: i64 = 0;
    assert(out@ + zeros(0) =~= out@);
    while i < n
        invariant
            0 <= i,
            i <= n || i == 0,
            out@ == old(out)@ + zeros(i as int),
        decreases n - i,
    {
        push_char(out, '0');
        assert(out@ =~= old(out)@ + zeros(i + 1));
        i = i + 1;
    }
    assert(zeros(n as int) =~= zeros(i as int));
}

fn push_chars(out: &mut String, s: &str, from: usize, to: usize)
    requires
        from <= to <= s@.len(),
    ensures
        final(out)@ == old(out)@ + s@.subrange(from as int, to as int),
{
    let mut i: usize = from;
    assert(out@ + s@.subrange(from as int, from as int) =~= out@);
    while i < to
        invariant
            from <= i <= to <= s@.len(),
            out@ == old(out)@ + s@.subrange(from as int, i as int),
        decreases to - i,
    {
        push_char(out, s.get_char(i));
        assert(out@ =~= old(out)@ + s@.subrange(from as int, i + 1));
        i = i + 1;
    }
}

fn push_positional(out: &mut String, d: &BigInt, e: i64)
    requires
        d@ >= 0,
        -400 <= e <= 400,
    ensures
        final(out)@ == old(out)@ + positional(d@ as nat, e as int),
{
    let s = d.to_string();
    let ghost o = out@;
    let ghost full = s@;
    let n: usize = s.as_str().unicode_len();
    if e >= 0 {
        out.append(s.as_str());
        push_zeros(out, e);
        push_char(out, '.');
        push_char(out, '0');
        assert(out@ =~= o + (full + zeros(e as int) + seq!['.', '0']));
    } else {
        let places: usize = (0 - e) as usize;
        if n > places {
            push_chars(out, s.as_str(), 0, n - places);
            push_char(out, '.');
            push_chars(out, s.as_str(), n - places, n);
            assert(full.take(full.len() + e) =~= full.subrange(0, n - places));
            assert(full.skip(full.len() + e) =~= full.subrange(n - places, n as int));
            assert(out@ =~= o + (full.take(full.len() + e) + seq!['.'] + full.skip(full.len() + e)));
        } else {
            push_char(out, '0');
            push_char(out, '.');
            push_zeros(out, 0 - e - n as i64);
            out.append(s.as_str());
            assert(out@ =~= o + (seq!['0', '.'] + zeros(-e - full.len()) + full));
        }
    }
}

/// Appends the text of a finite float.
pub fn push_float(out: &mut String, bits: u64)
    requires
        finite(bits),
    ensures
        final(out)@ == old(out)@ + float_text(bits),
{
    let ghost o = out@;
    let b: u64 = if bits >= SIGN {
        bits - SIGN
    } else {
        bits
    };
    let ghost sign: Seq<char> = if bits >= SIGN {
        seq!['-']
    } else {
        seq![]
    };
    if bits >= SIGN {
        push_char(out, '-');
    }
    assert(out@ =~= o + sign);
    if b == 0 {
        push_char(out, '0');
        push_char(out, '.');
        push_char(out, '0');
        assert(out@ =~= o + float_text(bits));
    } else {
        let u = units_of(b);
        let lead = find_lead(b, &u);
        let (d, e) = find_digits(b, lead, &u);
        push_positional(out, &d, e);
        assert(out@ =~= o + float_text(bits));
    }
}

/// Neighbouring floats are no closer than the 53 bits of a float let them be.
proof fn lemma_gap(b: nat)
    ensures
        units(b) < units(b + 1),
        units(b + 1) <= 0x20_0000_0000_0000 * (units(b + 1) - units(b)),
{
    lemma_units_grow(b);
    let m: nat = 0x10_0000_0000_0000;
    if b + 1 < m {
    } else if b + 1 == m {
        vstd::arithmetic::power2::lemma2_to64();
        assert((b + 1) % m == 0 && (b + 1) / m == 1);
        assert(((b + 1) / m - 1) as nat == 0);
        assert(units(b + 1) == m * 1);
    } else {
        let q = b / m;
        let r = b % m;
        lemma_pow2_pos((q - 1) as nat);
        let p = pow2((q - 1) as nat);
        assert(units(b) == (m + r) * p);
        if r + 1 < m {
            assert((b + 1) / m == q && (b + 1) % m == r + 1);
            assert(units(b + 1) == (m + r + 1) * p);
            assert((m + r + 1) * p - (m + r) * p == p) by (nonlinear_arith);
            assert((m + r + 1) * p <= (2 * m) * p) by (nonlinear_arith)
                requires
                    r + 1 < m,
                    p > 0,
            ;
        } else {
            assert((b + 1) / m == q + 1 && (b + 1) % m == 0);
            assert(units(b + 1) == m * pow2(q));
            lemma_pow2_unfold(q);
            assert(pow2(q) == 2 * p);
            assert(m * (2 * p) - (m + r) * p == p && m * (2 * p) == (2 * m) * p) by (nonlinear_arith)
                requires
                    r + 1 == m,
            ;
        }
    }
}

proof fn lemma_ten_large(n: nat)
    ensures
        ten(10 * n) >= pow2(33 * n),
    decreases n,
{
    vstd::arithmetic::power2::lemma2_to64();
    vstd::arithmetic::power2::lemma2_to64_rest();
    if n > 0 {
        let m = (n - 1) as nat;
        lemma_ten_large(m);
        lemma_ten_sum(10, 10 * m);
        assert(ten(10) == 10000000000) by {
            reveal_with_fuel(ten, 11);
        }
        vstd::arithmetic::power2::lemma_pow2_adds(33, 33 * m);
        lemma_pow2_pos(33 * m);
        let t = ten(10 * m);
        let w = pow2(33 * m);
        assert(10000000000 * t >= 0x2_0000_0000 * w) by (nonlinear_arith)
            requires
                t >= w,
                w > 0,
        ;
        assert(pow2(33) == 0x2_0000_0000);
    }
}

/// No positive float is below the power of ten with its leading exponent.
proof fn lemma_lead(b: nat, k: int)
    requires
        units(b) * bottom(k) >= top(1, k),
    ensures
        units(b) * bottom(lead_from(b, k)) >= top(1, lead_from(b, k)),
    decreases 310 - k,
{
    if !(k >= 310 || units(b) * bottom(k + 1) < top(1, k + 1)) {
        lemma_lead(b, k + 1);
    }
}

proof fn lemma_one_top(d: nat, e: int)
    ensures
        top(d, e) == d * top(1, e),
{
    let t = ten(if e > 0 { e as nat } else { 0 });
    assert(d * t * pow2(1074) == d * (1 * t * pow2(1074))) by (nonlinear_arith);
}

/// Ten times as many of a tenth of the unit.
proof fn lemma_tenth(k: int)
    ensures
        k > 0 ==> bottom(k - 1) == bottom(k) && top(1, k) == 10 * top(1, k - 1),
        k <= 0 ==> bottom(k - 1) == 10 * bottom(k) && top(1, k) == top(1, k - 1),
{
    if k > 0 {
        let t = ten((k - 1) as nat);
        assert(ten(k as nat) == 10 * t);
        assert(1 * (10 * t) * pow2(1074) == 10 * (1 * t * pow2(1074))) by (nonlinear_arith);
        assert(top(1, k - 1) == 1 * t * pow2(1074));
    }
}

proof fn lemma_scaled(x: nat, k: int, j: nat)
    requires
        x * bottom(k) >= top(1, k),
    ensures
        x * bottom(k - j) >= ten(j) * top(1, k - j),
    decreases j,
{
    if j == 0 {
        assert(1 * top(1, k) == top(1, k));
    } else {
        let i = (j - 1) as nat;
        lemma_scaled(x, k, i);
        lemma_tenth(k - i);
        let c = bottom(k - i);
        let t = top(1, k - i);
        let u = ten(i);
        let e = bottom(k - j);
        let v = top(1, k - j);
        if k - i > 0 {
            assert(x * e >= (10 * u) * v) by (nonlinear_arith)
                requires
                    x * c >= u * t,
                    e == c,
                    t == 10 * v,
            ;
        } else {
            assert(x * e >= (10 * u) * v) by (nonlinear_arith)
                requires
                    x * c >= u * t,
                    e == 10 * c,
                    t == v,
            ;
        }
    }
}

/// Of the two numbers of seventeen digits next to a float, the nearer one reads
/// back as it.
proof fn lemma_seventeen(b: nat, lead: int)
    requires
        0 < b < INFINITE,
        units(b) * bottom(lead) >= top(1, lead),
    ensures
        ({
            let e = lead - 16;
            let d = whole_part(b, e);
            is_nearest(
                if nearer_below(b, d, e) {
                    d
                } else {
                    d + 1
                },
                e,
                b,
            )
        }),
{
    let e = lead - 16;
    let d = whole_part(b, e);
    let c = bottom(e);
    let t = top(1, e);
    let x = units(b) * c;
    lemma_scaled(units(b), lead, 16);
    assert(ten(16) == 10000000000000000) by {
        reveal_with_fuel(ten, 17);
    }
    lemma_top_pos(e);
    lemma_bottom_pos(e);
    vstd::arithmetic::div_mod::lemma_fundamental_div_mod(x as int, t as int);
    let rem = x % t;
    assert(x == t * d + rem && 0 <= rem < t);
    let a = (b - 1) as nat;
    lemma_gap(a);
    lemma_gap(b);
    let s1 = (units(b) - units(a)) as nat;
    let s2 = (units(b + 1) - units(b)) as nat;
    assert(s1 * c > t && s2 * c > t) by (nonlinear_arith)
        requires
            units(b) * c >= 10000000000000000 * t,
            units(b) <= 0x20_0000_0000_0000 * s1,
            units(b) <= 0x20_0000_0000_0000 * s2,
            c > 0,
            t > 0,
    ;
    assert((units(a) + units(b)) * c == 2 * x - s1 * c) by (nonlinear_arith)
        requires
            s1 == units(b) - units(a),
            x == units(b) * c,
    ;
    assert((units(b) + units(b + 1)) * c == 2 * x + s2 * c) by (nonlinear_arith)
        requires
            s2 == units(b + 1) - units(b),
            x == units(b) * c,
    ;
    lemma_one_top(d, e);
    lemma_one_top(d + 1, e);
    assert((2 * d + 1) * t == 2 * (d * t) + t && (d + 1) * t == d * t + t && t * d == d * t)
        by (nonlinear_arith);
}

proof fn lemma_short_digits(b: nat, lead: int, n: int)
    requires
        0 < b < INFINITE,
        units(b) * bottom(lead) >= top(1, lead),
        n <= 17,
    ensures
        is_nearest(short_digits(b, lead, n).0, short_digits(b, lead, n).1, b),
    decreases 17 - n,
{
    let e = lead + 1 - n;
    let d = whole_part(b, e);
    if n < 17 && !is_nearest(d, e, b) && !is_nearest(d + 1, e, b) {
        lemma_short_digits(b, lead, n + 1);
    } else if n == 17 {
        lemma_seventeen(b, lead);
    }
}

/// The digits that stand for a float read back as the float.
pub proof fn short_digits_read_back(b: nat)
    requires
        0 < b < INFINITE,
    ensures
        ({
            let p = short_digits(b, lead_from(b, -330), 1);
            is_nearest(p.0, p.1, b) && nearest(p.0, p.1) == b
        }),
{
    lemma_ten_large(33);
    lemma_pow2_strictly_increases(1074, 1089);
    lemma_gap((b - 1) as nat);
    let u = units(b);
    assert(top(1, -330) == pow2(1074)) by (nonlinear_arith)
        requires
            top(1, -330) == 1 * 1 * pow2(1074),
    ;
    assert(bottom(-330) == ten(330));
    assert(u * ten(330) >= pow2(1074)) by (nonlinear_arith)
        requires
            u >= 1,
            ten(330) >= pow2(1074),
    ;
    lemma_lead(b, -330);
    lemma_short_digits(b, lead_from(b, -330), 1);
    let p = short_digits(b, lead_from(b, -330), 1);
    lemma_nearest(p.0, p.1, b);
}

proof fn lemma_shift(d: nat, e: int, b: nat)
    ensures
        reaches(10 * d, e - 1, b) == reaches(d, e, b),
{
    if b > 0 {
        let u = units((b - 1) as nat) + units(b);
        lemma_tenth(e);
        lemma_one_top(d, e);
        lemma_one_top(10 * d, e - 1);
        let t = top(1, e);
        let v = top(1, e - 1);
        let c = bottom(e);
        if e > 0 {
            assert((10 * d) * v == d * t) by (nonlinear_arith)
                requires
                    t == 10 * v,
            ;
        } else {
            assert((10 * d) * v == 10 * (d * t) && u * (10 * c) == 10 * (u * c)) by (nonlinear_arith)
                requires
                    t == v,
            ;
        }
    }
}

/// Zeros at the end of the digits, made up for by the exponent, change nothing.
pub proof fn trailing_zeros_change_nothing(d: nat, e: int, b: nat, j: nat)
    requires
        is_nearest(d, e, b),
    ensures
        nearest(d * ten(j), e - j) == b,
        is_nearest(d * ten(j), e - j, b),
    decreases j,
{
    if j == 0 {
        assert(d * 1 == d);
    } else {
        let i = (j - 1) as nat;
        trailing_zeros_change_nothing(d, e, b, i);
        lemma_shift(d * ten(i), e - i, b);
        lemma_shift(d * ten(i), e - i, b + 1);
        assert(10 * (d * ten(i)) == d * (10 * ten(i))) by (nonlinear_arith);
    }
    lemma_nearest(d * ten(j), e - j, b);
}

} // verus!
