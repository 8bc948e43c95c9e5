//! What the operators and the builtin functions come to, said over the integers, texts
//! and collections that values hold.

use vstd::prelude::*;
use crate::ast::{BinOp, UnOp};
use crate::error::ErrorView;
use crate::ops::{Owed, best_from, binary, div_zero, kind, overflow, sum_from, unary};
use crate::ops::{max_gives, min_gives, sum_gives};
use crate::token::{Span, no_span};
use crate::value::ValueView;

verus! {

/// The integer that a value of a number type holds.
pub open spec fn number(v: ValueView) -> Option<int> {
    match v {
        ValueView::Int(n) => Some(n),
        ValueView::UInt(n) => Some(n),
        ValueView::I32(n) => Some(n as int),
        ValueView::U32(n) => Some(n as int),
        ValueView::U64(n) => Some(n as int),
        ValueView::U128(n) => Some(n as int),
        _ => None,
    }
}

/// Whether an integer is one of the type that a value has.
pub open spec fn fits(n: int, like: ValueView) -> bool {
    match like {
        ValueView::Int(_) => true,
        ValueView::UInt(_) => n >= 0,
        ValueView::I32(_) => i32::MIN <= n <= i32::MAX,
        ValueView::U32(_) => 0 <= n <= u32::MAX,
        ValueView::U64(_) => 0 <= n <= u64::MAX,
        ValueView::U128(_) => 0 <= n <= u128::MAX,
        _ => false,
    }
}

/// Whether two values are numbers of one type, each within it.
pub open spec fn alike(l: ValueView, r: ValueView) -> bool {
    &&& kind(l) == kind(r)
    &&& number(l) matches Some(n) && fits(n, l)
    &&& number(r) matches Some(n) && fits(n, r)
}

/// Whether an outcome is the integer `n` as a value of the type that `like` has, or an
/// overflow if it is none of that type.
pub open spec fn comes_to(out: Owed, n: int, like: ValueView, span: Span) -> bool {
    if fits(n, like) {
        out matches Ok(v) && kind(v) == kind(like) && number(v) == Some(n)
    } else {
        out == Err::<ValueView, ErrorView>(overflow(span))
    }
}

/// Two numbers of one type are compared as the integers that they are.
pub proof fn comparisons_follow_the_integers(l: ValueView, r: ValueView, span: Span)
    requires
        alike(l, r),
    ensures
        binary(BinOp::Lt, l, r, span) == Ok::<ValueView, ErrorView>(ValueView::Bool(number(l)->0 < number(r)->0)),
        binary(BinOp::Gt, l, r, span) == Ok::<ValueView, ErrorView>(ValueView::Bool(number(l)->0 > number(r)->0)),
        binary(BinOp::LtEq, l, r, span) == Ok::<ValueView, ErrorView>(ValueView::Bool(number(l)->0 <= number(r)->0)),
        binary(BinOp::GtEq, l, r, span) == Ok::<ValueView, ErrorView>(ValueView::Bool(number(l)->0 >= number(r)->0)),
        binary(BinOp::Eq, l, r, span) == Ok::<ValueView, ErrorView>(ValueView::Bool(number(l)->0 == number(r)->0)),
        binary(BinOp::NotEq, l, r, span) == Ok::<ValueView, ErrorView>(ValueView::Bool(number(l)->0 != number(r)->0)),
{
}

/// Sums, differences and products are those of the integers; where one is no integer
/// of the type, the operation overflows.
pub proof fn arithmetic_is_exact(l: ValueView, r: ValueView, span: Span)
    requires
        alike(l, r),
    ensures
        comes_to(binary(BinOp::Add, l, r, span), number(l)->0 + number(r)->0, l, span),
        comes_to(binary(BinOp::Sub, l, r, span), number(l)->0 - number(r)->0, l, span),
        comes_to(binary(BinOp::Mul, l, r, span), number(l)->0 * number(r)->0, l, span),
        comes_to(unary(UnOp::Neg, l, span), -number(l)->0, l, span),
{
    let a = number(l)->0;
    let b = number(r)->0;
    if a >= 0 && b >= 0 {
        assert(a * b >= 0) by (nonlinear_arith)
            requires
                a >= 0,
                b >= 0,
        ;
    }
}

/// The size of an integer.
pub open spec fn size_of_int(n: int) -> int {
    if n < 0 {
        -n
    } else {
        n
    }
}

/// A division by anything but zero gives a quotient and a rest that make up the
/// dividend; the rest is smaller than the divisor and has the sign of the dividend. A
/// division by zero fails. The one quotient that can overflow is that of the least
/// `i32` by minus one.
pub proof fn quotients_leave_a_rest(l: ValueView, r: ValueView, span: Span)
    requires
        alike(l, r),
    ensures
        number(r)->0 == 0 ==> binary(BinOp::Div, l, r, span) == Err::<ValueView, ErrorView>(div_zero(span)),
        number(r)->0 == 0 ==> binary(BinOp::Mod, l, r, span) == Err::<ValueView, ErrorView>(div_zero(span)),
        number(r)->0 != 0 ==> exists|q: int, m: int| #[trigger]
            divides_with(number(l)->0, number(r)->0, q, m) && comes_to(binary(BinOp::Div, l, r, span), q, l, span)
                && (fits(q, l) ==> comes_to(binary(BinOp::Mod, l, r, span), m, l, span)),
{
    let a = number(l)->0;
    let b = number(r)->0;
    if b != 0 {
        let q = crate::bigint::quot(a, b);
        let m = crate::bigint::rest(a, b);
        lemma_division(a, b);
        assert(divides_with(a, b, q, m));
    }
}

/// Whether `q` is the quotient of `a` by `b`, rounded toward zero, and `m` the rest.
pub open spec fn divides_with(a: int, b: int, q: int, m: int) -> bool {
    &&& a == b * q + m
    &&& size_of_int(m) < size_of_int(b)
    &&& a >= 0 ==> m >= 0
    &&& a <= 0 ==> m <= 0
}

proof fn lemma_division(a: int, b: int)
    requires
        b != 0,
    ensures
        divides_with(a, b, crate::bigint::quot(a, b), crate::bigint::rest(a, b)),
        a >= 0 && b > 0 ==> 0 <= crate::bigint::quot(a, b) <= a && crate::bigint::quot(a, b) == a / b
            && crate::bigint::rest(a, b) == a % b,
{
    let x = size_of_int(a);
    let y = size_of_int(b);
    vstd::arithmetic::div_mod::lemma_fundamental_div_mod(x, y);
    vstd::arithmetic::div_mod::lemma_mod_bound(x, y);
    let q = x / y;
    let m = x % y;
    assert(x == y * q + m);
    vstd::arithmetic::div_mod::lemma_div_pos_is_pos(x, y);
    assert(q <= x) by (nonlinear_arith)
        requires
            x == y * q + m,
            0 <= m,
            y >= 1,
            q >= 0,
    ;
    assert((-y) * (-q) == y * q && (-y) * q == -(y * q) && y * (-q) == -(y * q)) by (nonlinear_arith);
}

/// Two values of one type of integers are equal numbers only if they are one value.
pub proof fn numbers_tell_values_apart(l: ValueView, r: ValueView)
    requires
        alike(l, r),
        number(l) == number(r),
    ensures
        l == r,
{
}

/// `and`, `or` and `not` are those of logic.
pub proof fn logic_is_that_of_booleans(a: bool, b: bool, span: Span)
    ensures
        binary(BinOp::And, ValueView::Bool(a), ValueView::Bool(b), span) == Ok::<ValueView, ErrorView>(
            ValueView::Bool(a && b),
        ),
        binary(BinOp::Or, ValueView::Bool(a), ValueView::Bool(b), span) == Ok::<ValueView, ErrorView>(
            ValueView::Bool(a || b),
        ),
        unary(UnOp::Not, ValueView::Bool(a), span) == Ok::<ValueView, ErrorView>(ValueView::Bool(!a)),
        binary(BinOp::Eq, ValueView::Bool(a), ValueView::Bool(b), span) == Ok::<ValueView, ErrorView>(
            ValueView::Bool(a == b),
        ),
        binary(BinOp::NotEq, ValueView::Bool(a), ValueView::Bool(b), span) == Ok::<ValueView, ErrorView>(
            ValueView::Bool(a != b),
        ),
{
}

/// Whether the elements of an array are numbers of one type.
pub open spec fn all_alike(s: Seq<ValueView>) -> bool {
    forall|i: int, j: int| #![trigger s[i], s[j]] 0 <= i < s.len() && 0 <= j < s.len() ==> alike(s[i], s[j])
}

proof fn lemma_best_from(op: BinOp, s: Seq<ValueView>, i: nat, acc: int)
    requires
        op == BinOp::Gt || op == BinOp::Lt,
        all_alike(s),
        0 <= acc < i <= s.len(),
        forall|j: int|
            0 <= j < i ==> if op == BinOp::Gt {
                number(#[trigger] s[j])->0 <= number(s[acc])->0
            } else {
                number(s[j])->0 >= number(s[acc])->0
            },
    ensures
        exists|k: int|
            0 <= k < s.len() && best_from(op, s, i, s[acc]) == Ok::<ValueView, ErrorView>(#[trigger] s[k])
                && forall|j: int|
                0 <= j < s.len() ==> if op == BinOp::Gt {
                    number(#[trigger] s[j])->0 <= number(s[k])->0
                } else {
                    number(s[j])->0 >= number(s[k])->0
                },
    decreases s.len() - i,
{
    if i < s.len() {
        assert(alike(s[i as int], s[acc]));
        comparisons_follow_the_integers(s[i as int], s[acc], no_span());
        let better = binary(op, s[i as int], s[acc], no_span()) == Ok::<ValueView, ErrorView>(ValueView::Bool(true));
        let next = if better {
            i as int
        } else {
            acc
        };
        assert forall|j: int| 0 <= j < i + 1 implies if op == BinOp::Gt {
            number(#[trigger] s[j])->0 <= number(s[next])->0
        } else {
            number(s[j])->0 >= number(s[next])->0
        } by {}
        lemma_best_from(op, s, i + 1, next);
    } else {
        assert(best_from(op, s, i, s[acc]) == Ok::<ValueView, ErrorView>(s[acc]));
    }
}

/// The maximum of an array of numbers of one type is one of its elements, and none of
/// them is greater; that of an empty array is the default.
pub proof fn the_maximum_is_the_greatest_element(s: Seq<ValueView>, default: ValueView)
    requires
        all_alike(s),
    ensures
        s.len() == 0 ==> max_gives(seq![ValueView::Array(s), default]) == Ok::<ValueView, ErrorView>(default),
        s.len() > 0 ==> (max_gives(seq![ValueView::Array(s), default]) matches Ok(v) && s.contains(v)
            && forall|j: int| 0 <= j < s.len() ==> number(#[trigger] s[j])->0 <= number(v)->0),
{
    if s.len() > 0 {
        lemma_best_from(BinOp::Gt, s, 1, 0);
    }
}

/// The minimum of an array of numbers of one type is one of its elements, and none of
/// them is less; that of an empty array is the default.
pub proof fn the_minimum_is_the_least_element(s: Seq<ValueView>, default: ValueView)
    requires
        all_alike(s),
    ensures
        s.len() == 0 ==> min_gives(seq![ValueView::Array(s), default]) == Ok::<ValueView, ErrorView>(default),
        s.len() > 0 ==> (min_gives(seq![ValueView::Array(s), default]) matches Ok(v) && s.contains(v)
            && forall|j: int| 0 <= j < s.len() ==> number(#[trigger] s[j])->0 >= number(v)->0),
{
    if s.len() > 0 {
        lemma_best_from(BinOp::Lt, s, 1, 0);
    }
}

/// The sums of numbers from a first one on: each is the one before and one number
/// more.
pub open spec fn runs_up(t: Seq<int>, first: int, s: Seq<ValueView>) -> bool {
    &&& t.len() == s.len() + 1
    &&& t[0] == first
    &&& forall|i: int| 0 <= i < s.len() ==> t[i + 1] - t[i] == number(#[trigger] s[i])->0
}

proof fn lemma_sum_from(s: Seq<ValueView>, i: nat, acc: ValueView, init: ValueView, t: Seq<int>)
    requires
        i <= s.len(),
        all_alike(s),
        forall|j: int| 0 <= j < s.len() ==> alike(init, #[trigger] s[j]),
        kind(acc) == kind(init),
        alike(init, init),
        runs_up(t, number(init)->0, s),
        number(acc) == Some(t[i as int]),
        fits(t[i as int], init),
    ensures
        (forall|j: int| i < j <= s.len() ==> fits(#[trigger] t[j], init)) ==> (sum_from(s, i, acc) matches Ok(v)
            && kind(v) == kind(init) && number(v) == Some(t[s.len() as int])),
        (exists|j: int| i < j <= s.len() && !fits(#[trigger] t[j], init)) ==> sum_from(s, i, acc) == Err::<
            ValueView,
            ErrorView,
        >(overflow(no_span())),
    decreases s.len() - i,
{
    if i < s.len() {
        assert(alike(init, s[i as int]));
        assert(t[i as int + 1] - t[i as int] == number(s[i as int])->0);
        arithmetic_is_exact(acc, s[i as int], no_span());
        assert(fits(t[i as int + 1], acc) == fits(t[i as int + 1], init));
        match binary(BinOp::Add, acc, s[i as int], no_span()) {
            Ok(v) => {
                assert(fits(t[i as int + 1], init));
                lemma_sum_from(s, i + 1, v, init, t);
                if exists|j: int| i < j <= s.len() && !fits(#[trigger] t[j], init) {
                    let j = choose|j: int| i < j <= s.len() && !fits(#[trigger] t[j], init);
                    assert(j != i + 1);
                }
            },
            Err(_) => {
                assert(!fits(t[i as int + 1], init));
            },
        }
    }
}

/// The sum of numbers of one type, after a first one of that type, is that of the
/// integers; it overflows if and only if one of the sums on the way does.
pub proof fn the_sum_is_that_of_the_integers(s: Seq<ValueView>, init: ValueView, t: Seq<int>)
    requires
        all_alike(s),
        alike(init, init),
        forall|j: int| 0 <= j < s.len() ==> alike(init, #[trigger] s[j]),
        runs_up(t, number(init)->0, s),
    ensures
        (forall|j: int| 0 <= j <= s.len() ==> fits(#[trigger] t[j], init)) ==> comes_to(
            sum_gives(seq![ValueView::Array(s), init]),
            t.last(),
            init,
            no_span(),
        ),
        (exists|j: int| 0 <= j <= s.len() && !fits(#[trigger] t[j], init)) ==> sum_gives(
            seq![ValueView::Array(s), init],
        ) == Err::<ValueView, ErrorView>(overflow(no_span())),
{
    lemma_sum_from(s, 0, init, init, t);
    if exists|j: int| 0 <= j <= s.len() && !fits(#[trigger] t[j], init) {
        let j = choose|j: int| 0 <= j <= s.len() && !fits(#[trigger] t[j], init);
        assert(j != 0);
    }
}

} // verus!
