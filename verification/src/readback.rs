//! Canonical texts, read back.

use vstd::prelude::*;
use vstd::utf8::{encode_utf8, is_ascii_chars};
use crate::bigint::{decimal_int, digits_val};
use crate::binary64::{
    INFINITE, SIGN, finite, float_text, is_nearest, lead_from, magnitude_bits, nearest, positional,
    short_digits, short_digits_read_back, ten, trailing_zeros_change_nothing, zero_is_nearest_to_zero,
    zeros,
};
use crate::json::{
    Read, after_digits, after_space, entry_text, entry_texts, escaped, escaped_all, float_value,
    is_digit, is_space, item_texts, lemma_put_last, put, put_keeps_keys_apart, quoted, read_all,
    read_chars, read_entries, read_hex, read_items, read_literal, read_number, read_text, read_value,
    utf8_width, value_text,
};
use crate::text::{decimal};
use crate::value::{JsonView, ValueView, lemma_field_at_range, no_key_twice};

verus! {

/// The values that a JSON text can spell: booleans, integers, floats, texts, `null`,
/// and arrays and objects of these in which no key stands twice.
pub open spec fn json_value(v: ValueView) -> bool
    decreases v,
{
    match v {
        ValueView::Bool(_) => true,
        ValueView::Int(_) => true,
        ValueView::Str(_) => true,
        ValueView::Float(_) => true,
        ValueView::Json(JsonView::Null) => true,
        ValueView::Json(JsonView::Array(s)) => forall|i: int| 0 <= i < s.len() ==> json_value(#[trigger] s[i]),
        ValueView::Json(JsonView::Object(s)) => no_key_twice(s) && forall|i: int|
            0 <= i < s.len() ==> json_value((#[trigger] s[i]).1),
        _ => false,
    }
}

/// Whether every float in such a value is finite.
pub open spec fn finite_floats(v: ValueView) -> bool
    decreases v,
{
    match v {
        ValueView::Float(n) => finite(n),
        ValueView::Json(JsonView::Array(s)) => forall|i: int| 0 <= i < s.len() ==> finite_floats(#[trigger] s[i]),
        ValueView::Json(JsonView::Object(s)) => forall|i: int|
            0 <= i < s.len() ==> finite_floats((#[trigger] s[i]).1),
        _ => true,
    }
}

/// Whether the bytes of a text stand at `p`.
spec fn stands(b: Seq<u8>, p: int, t: Seq<char>) -> bool {
    0 <= p && after(p, t) <= b.len() && b.subrange(p, after(p, t)) == encode_utf8(t)
}

/// The place behind a text that stands at `p`.
spec fn after(p: int, t: Seq<char>) -> int {
    p + encode_utf8(t).len()
}

proof fn lemma_utf8_sum(a: Seq<char>, c: Seq<char>)
    ensures
        encode_utf8(a + c) == encode_utf8(a) + encode_utf8(c),
    decreases a.len(),
{
    if a.len() == 0 {
        assert(a + c =~= c);
        assert(encode_utf8(a) + encode_utf8(c) =~= encode_utf8(c));
    } else {
        assert((a + c).drop_first() =~= a.drop_first() + c);
        lemma_utf8_sum(a.drop_first(), c);
        assert(encode_utf8(a + c) =~= encode_utf8(a) + encode_utf8(c));
    }
}

proof fn lemma_parts(b: Seq<u8>, p: int, t: Seq<char>, u: Seq<char>)
    requires
        stands(b, p, t + u),
    ensures
        stands(b, p, t),
        stands(b, after(p, t), u),
        after(p, t + u) == after(after(p, t), u),
{
    lemma_utf8_sum(t, u);
    let x = encode_utf8(t);
    let y = encode_utf8(u);
    let w = b.subrange(p, after(p, t + u));
    assert(b.subrange(p, after(p, t)) =~= w.subrange(0, x.len() as int));
    assert((x + y).subrange(0, x.len() as int) =~= x);
    assert(b.subrange(after(p, t), after(p, t + u)) =~= w.subrange(x.len() as int, w.len() as int));
    assert((x + y).subrange(x.len() as int, (x + y).len() as int) =~= y);
}

proof fn lemma_ascii(b: Seq<u8>, p: int, t: Seq<char>)
    requires
        stands(b, p, t),
        is_ascii_chars(t),
    ensures
        after(p, t) == p + t.len() <= b.len(),
        forall|k: int| 0 <= k < t.len() ==> b[p + k] == (#[trigger] t[k]) as u8,
{
    vstd::utf8::is_ascii_chars_encode_utf8(t);
    assert forall|k: int| 0 <= k < t.len() implies b[p + k] == (#[trigger] t[k]) as u8 by {
        assert(b.subrange(p, after(p, t))[k] == b[p + k]);
    }
}

/// One ASCII character.
proof fn lemma_one(b: Seq<u8>, p: int, c: char)
    requires
        stands(b, p, seq![c]),
        c <= '\u{7f}',
    ensures
        after(p, seq![c]) == p + 1 <= b.len(),
        b[p] == c as u8,
{
    lemma_ascii(b, p, seq![c]);
    assert(b[p + 0] == seq![c][0] as u8);
}

proof fn lemma_nibble(d: nat)
    requires
        d < 16,
    ensures
        crate::json::hex_digit(crate::text::nibble_char(d) as u8) == Some(d),
        crate::text::nibble_char(d) <= '\u{7f}',
{
}

#[verifier::spinoff_prover]
#[verifier::rlimit(60)]
proof fn lemma_char_back(b: Seq<u8>, p: int, c: char, acc: Seq<char>)
    requires
        stands(b, p, escaped(c)),
    ensures
        p < after(p, escaped(c)) <= b.len(),
        read_chars(b, p, acc) == read_chars(b, after(p, escaped(c)), acc.push(c)),
{
    let t = escaped(c);
    if c == '"' || c == '\\' || c == '\n' || c == '\r' || c == '\t' {
        reveal_strlit("\\\"");
        reveal_strlit("\\\\");
        reveal_strlit("\\n");
        reveal_strlit("\\r");
        reveal_strlit("\\t");
        assert(t.len() == 2 && t[0] == '\\' && is_ascii_chars(t));
        lemma_ascii(b, p, t);
        assert(b[p + 0] == t[0] as u8);
        assert(b[p + 1] == t[1] as u8);
    } else if (c as u32) < 0x20 {
        reveal_strlit("\\u00");
        let n = c as nat;
        lemma_nibble(n / 16);
        lemma_nibble(n % 16);
        assert(c as u8 as nat == n);
        assert(t.len() == 6);
        assert(t[0] == '\\' && t[1] == 'u' && t[2] == '0' && t[3] == '0');
        assert(t[4] == crate::text::nibble_char(n / 16));
        assert(t[5] == crate::text::nibble_char(n % 16));
        assert(is_ascii_chars(t));
        lemma_ascii(b, p, t);
        assert(b[p + 0] == t[0] as u8);
        assert(b[p + 1] == t[1] as u8);
        assert(b[p + 2] == t[2] as u8);
        assert(b[p + 3] == t[3] as u8);
        assert(b[p + 4] == t[4] as u8);
        assert(b[p + 5] == t[5] as u8);
        reveal_with_fuel(read_hex, 5);
        assert(read_hex(b, p + 2, 4, 0) == Read::Done(n, p + 6));
        assert(n as char == c);
    } else {
        let x = encode_utf8(t);
        vstd::utf8::encode_utf8_first_scalar(t);
        assert(t.drop_first() =~= seq![]);
        reveal_with_fuel(encode_utf8, 2);
        assert(x =~= vstd::utf8::encode_scalar(c as u32));
        vstd::utf8::encode_utf8_valid_utf8(t);
        vstd::utf8::encode_utf8_decode_utf8(t);
        assert(b.subrange(p, after(p, t))[0] == b[p]);
        let y = x[0];
        assert(y < 0x80 ==> (y & 0x7f) as u32 == y as u32) by (bit_vector);
        assert(utf8_width(y) == x.len());
        assert(acc + t =~= acc.push(c));
    }
}

/// The characters from the `n`-th on, as they stand in a JSON text.
spec fn escaped_from(s: Seq<char>, n: nat) -> Seq<char>
    decreases s.len() - n,
{
    if n >= s.len() {
        seq![]
    } else {
        escaped(s[n as int]) + escaped_from(s, n + 1)
    }
}

proof fn lemma_escaped(s: Seq<char>, n: nat)
    requires
        n <= s.len(),
    ensures
        escaped_all(s, n) + escaped_from(s, n) == escaped_all(s, s.len()),
    decreases s.len() - n,
{
    if n < s.len() {
        lemma_escaped(s, n + 1);
        assert(escaped_all(s, n) + escaped_from(s, n) =~= escaped_all(s, n + 1) + escaped_from(s, n + 1));
    } else {
        assert(escaped_all(s, n) + escaped_from(s, n) =~= escaped_all(s, n));
    }
}

proof fn lemma_chars_back(b: Seq<u8>, p: int, s: Seq<char>, n: nat)
    requires
        n <= s.len(),
        stands(b, p, escaped_from(s, n) + seq!['"']),
    ensures
        read_chars(b, p, s.take(n as int)) == Read::Done(s, after(p, escaped_from(s, n) + seq!['"'])),
    decreases s.len() - n,
{
    let q = seq!['"'];
    if n == s.len() {
        assert(escaped_from(s, n) + q =~= q);
        lemma_one(b, p, '"');
        assert(s.take(n as int) =~= s);
    } else {
        let c = s[n as int];
        assert(escaped_from(s, n) + q =~= escaped(c) + (escaped_from(s, n + 1) + q));
        lemma_parts(b, p, escaped(c), escaped_from(s, n + 1) + q);
        lemma_char_back(b, p, c, s.take(n as int));
        lemma_chars_back(b, after(p, escaped(c)), s, n + 1);
        assert(s.take(n as int).push(c) =~= s.take(n as int + 1));
    }
}

proof fn lemma_text_back(b: Seq<u8>, p: int, s: Seq<char>)
    requires
        stands(b, p, quoted(s)),
    ensures
        read_text(b, p) == Read::Done(s, after(p, quoted(s))),
        b[p] == 34,
        p < after(p, quoted(s)) <= b.len(),
{
    let q = seq!['"'];
    lemma_escaped(s, 0);
    assert(quoted(s) =~= q + (escaped_from(s, 0) + q));
    lemma_parts(b, p, q, escaped_from(s, 0) + q);
    lemma_one(b, p, '"');
    lemma_chars_back(b, p + 1, s, 0);
    assert(s.take(0) =~= seq![]);
}

/// Whether a text is all digits.
spec fn all_digits(s: Seq<char>) -> bool {
    forall|i: int| 0 <= i < s.len() ==> '0' <= #[trigger] s[i] <= '9'
}

spec fn bytes_of(s: Seq<char>) -> Seq<u8> {
    Seq::new(s.len(), |i: int| s[i] as u8)
}

proof fn lemma_decimal(n: nat)
    ensures
        all_digits(decimal(n)),
        decimal(n).len() > 0,
        digits_val(bytes_of(decimal(n))) == n,
    decreases n,
{
    let s = decimal(n);
    let d = crate::text::digit_char(n % 10);
    assert('0' <= d <= '9' && d as u8 - 48 == n % 10);
    if n < 10 {
        assert(s =~= seq![d]);
        assert(bytes_of(s).drop_last() =~= seq![]);
        reveal_with_fuel(digits_val, 2);
    } else {
        lemma_decimal(n / 10);
        assert(bytes_of(s).drop_last() =~= bytes_of(decimal(n / 10)));
        assert(bytes_of(s).last() == d as u8);
    }
}

proof fn lemma_zeros_behind(s: Seq<char>, k: nat)
    ensures
        digits_val(bytes_of(s + zeros(k as int))) == digits_val(bytes_of(s)) * ten(k),
    decreases k,
{
    let x = bytes_of(s + zeros(k as int));
    if k == 0 {
        assert(s + zeros(0) =~= s);
        assert(digits_val(bytes_of(s)) * 1 == digits_val(bytes_of(s)));
    } else {
        let i = (k - 1) as nat;
        lemma_zeros_behind(s, i);
        assert(x.drop_last() =~= bytes_of(s + zeros(i as int)));
        assert(x.last() == 48);
        let d = digits_val(bytes_of(s));
        assert((d * ten(i)) * 10 == d * (10 * ten(i))) by (nonlinear_arith);
    }
}

proof fn lemma_zeros_before(k: nat, s: Seq<char>)
    ensures
        digits_val(bytes_of(zeros(k as int) + s)) == digits_val(bytes_of(s)),
    decreases s.len(),
{
    let x = bytes_of(zeros(k as int) + s);
    if s.len() == 0 {
        let none: Seq<char> = seq![];
        lemma_zeros_behind(none, k);
        assert(zeros(k as int) + s =~= none + zeros(k as int));
        assert(bytes_of(s) =~= bytes_of(none));
        assert(digits_val(bytes_of(none)) == 0);
        assert(0 * ten(k) == 0);
    } else {
        lemma_zeros_before(k, s.drop_last());
        assert(x.drop_last() =~= bytes_of(zeros(k as int) + s.drop_last()));
        assert(x.last() == bytes_of(s).last());
        assert(bytes_of(s).drop_last() =~= bytes_of(s.drop_last()));
    }
}

proof fn lemma_run(b: Seq<u8>, p: int, q: int)
    requires
        0 <= p <= q <= b.len(),
        forall|k: int| p <= k < q ==> is_digit(#[trigger] b[k]),
        q == b.len() || !is_digit(b[q]),
    ensures
        after_digits(b, p) == q,
    decreases q - p,
{
    if p < q {
        lemma_run(b, p + 1, q);
    }
}

proof fn lemma_digits_back(b: Seq<u8>, p: int, t: Seq<char>)
    requires
        stands(b, p, t),
        all_digits(t),
        after(p, t) == b.len() || !is_digit(b[after(p, t)]),
    ensures
        after(p, t) == p + t.len() <= b.len(),
        after_digits(b, p) == after(p, t),
        b.subrange(p, after(p, t)) == bytes_of(t),
        t.len() > 0 ==> is_digit(b[p]),
{
    assert(is_ascii_chars(t));
    lemma_ascii(b, p, t);
    assert(b.subrange(p, after(p, t)) =~= bytes_of(t)) by {
        assert forall|k: int| 0 <= k < t.len() implies b.subrange(p, after(p, t))[k] == bytes_of(t)[k] by {
            assert(b[p + k] == t[k] as u8);
        }
    }
    assert forall|k: int| p <= k < after(p, t) implies is_digit(#[trigger] b[k]) by {
        assert(b[p + (k - p)] == t[k - p] as u8);
    }
    lemma_run(b, p, after(p, t));
}

/// Whether a value may end at `q`: with the bytes, or before what ends an item or
/// an entry.
spec fn may_end(b: Seq<u8>, q: int) -> bool {
    q == b.len() || (0 <= q < b.len() && (b[q] == 44 || b[q] == 93 || b[q] == 125))
}

proof fn lemma_int_back(b: Seq<u8>, p: int, n: int)
    requires
        stands(b, p, decimal_int(n)),
        may_end(b, after(p, decimal_int(n))),
    ensures
        read_number(b, p) == Read::Done(ValueView::Int(n), after(p, decimal_int(n))),
        p < after(p, decimal_int(n)) <= b.len(),
        b[p] == 45 || is_digit(b[p]),
{
    let q = after(p, decimal_int(n));
    if n < 0 {
        let t = decimal((-n) as nat);
        lemma_decimal((-n) as nat);
        lemma_parts(b, p, seq!['-'], t);
        lemma_one(b, p, '-');
        lemma_digits_back(b, p + 1, t);
        assert(b.subrange(p, q).skip(1) =~= b.subrange(p + 1, q));
        assert(b.subrange(p, q)[0] == b[p]);
    } else {
        let t = decimal(n as nat);
        lemma_decimal(n as nat);
        lemma_digits_back(b, p, t);
        assert(b.subrange(p, q)[0] == b[p]);
    }
}

/// A sign, digits, a point and digits.
proof fn lemma_point_back(b: Seq<u8>, p: int, neg: bool, ints: Seq<char>, frac: Seq<char>)
    requires
        stands(b, p, (if neg { seq!['-'] } else { seq![] }) + (ints + (seq!['.'] + frac))),
        all_digits(ints),
        all_digits(frac),
        ints.len() > 0,
        frac.len() > 0,
        may_end(b, after(p, (if neg { seq!['-'] } else { seq![] }) + (ints + (seq!['.'] + frac)))),
    ensures
        ({
            let q = after(p, (if neg { seq!['-'] } else { seq![] }) + (ints + (seq!['.'] + frac)));
            &&& p < q <= b.len()
            &&& b[p] == 45 || is_digit(b[p])
            &&& read_number(b, p) == Read::Done(
                ValueView::Float(float_value(neg, bytes_of(ints), bytes_of(frac), 0)),
                q,
            )
        }),
{
    let sign: Seq<char> = if neg { seq!['-'] } else { seq![] };
    let rest = ints + (seq!['.'] + frac);
    lemma_parts(b, p, sign, rest);
    if neg {
        lemma_one(b, p, '-');
    }
    let i0 = after(p, sign);
    lemma_parts(b, i0, ints, seq!['.'] + frac);
    let i1 = after(i0, ints);
    lemma_parts(b, i1, seq!['.'], frac);
    lemma_one(b, i1, '.');
    lemma_digits_back(b, i0, ints);
    lemma_digits_back(b, i1 + 1, frac);
    assert(!neg ==> i0 == p);
}

proof fn lemma_float_value(neg: bool, ints: Seq<char>, frac: Seq<char>, m: nat)
    requires
        nearest(digits_val(bytes_of(ints + frac)), -frac.len()) == m,
        m < INFINITE,
    ensures
        float_value(neg, bytes_of(ints), bytes_of(frac), 0) == if neg { (m + SIGN) as u64 } else { m as u64 },
{
    reveal(float_value);
    assert(bytes_of(ints) + bytes_of(frac) =~= bytes_of(ints + frac));
}

/// Whether a float is spelled by digits, a point and digits.
spec fn spelled(m: nat, body: Seq<char>, ints: Seq<char>, frac: Seq<char>) -> bool {
    &&& body == ints + (seq!['.'] + frac)
    &&& all_digits(ints) && ints.len() > 0
    &&& all_digits(frac) && frac.len() > 0
    &&& nearest(digits_val(bytes_of(ints + frac)), -frac.len()) == m
}

/// The digits before and after the point.
#[verifier::rlimit(60)]
proof fn lemma_positional(d: nat, e: int, m: nat) -> (r: (Seq<char>, Seq<char>))
    requires
        is_nearest(d, e, m),
        nearest(d, e) == m,
    ensures
        spelled(m, positional(d, e), r.0, r.1),
{
    let s = decimal(d);
    lemma_decimal(d);
    if e >= 0 {
        let ints = s + zeros(e);
        let frac: Seq<char> = seq!['0'];
        lemma_zeros_behind(s, (e + 1) as nat);
        assert(ints + frac =~= s + zeros(e + 1));
        trailing_zeros_change_nothing(d, e, m, (e + 1) as nat);
        assert(positional(d, e) =~= ints + (seq!['.'] + frac));
        (ints, frac)
    } else if s.len() > -e {
        let ints = s.take(s.len() + e);
        let frac = s.skip(s.len() + e);
        assert(ints + frac =~= s);
        assert(positional(d, e) =~= ints + (seq!['.'] + frac));
        (ints, frac)
    } else {
        let ints: Seq<char> = seq!['0'];
        let frac = zeros(-e - s.len()) + s;
        let k = (1 - e - s.len()) as nat;
        lemma_zeros_before(k, s);
        assert(ints + frac =~= zeros(k as int) + s);
        assert(positional(d, e) =~= ints + (seq!['.'] + frac));
        (ints, frac)
    }
}

proof fn lemma_zero_text() -> (r: (Seq<char>, Seq<char>))
    ensures
        spelled(0, seq!['0', '.', '0'], r.0, r.1),
{
    let ints: Seq<char> = seq!['0'];
    let none: Seq<char> = seq![];
    lemma_zeros_behind(none, 2);
    assert(ints + ints =~= none + zeros(2));
    assert(digits_val(bytes_of(none)) == 0);
    assert(0 * ten(2) == 0);
    zero_is_nearest_to_zero(-1);
    assert(seq!['0', '.', '0'] =~= ints + (seq!['.'] + ints));
    (ints, ints)
}

proof fn lemma_float_back(b: Seq<u8>, p: int, bits: u64)
    requires
        finite(bits),
        stands(b, p, float_text(bits)),
        may_end(b, after(p, float_text(bits))),
    ensures
        read_number(b, p) == Read::Done(ValueView::Float(bits), after(p, float_text(bits))),
        p < after(p, float_text(bits)) <= b.len(),
        b[p] == 45 || is_digit(b[p]),
{
    let neg = bits >= SIGN;
    let m = magnitude_bits(bits);
    let sign: Seq<char> = if neg { seq!['-'] } else { seq![] };
    let (ints, frac): (Seq<char>, Seq<char>) = if m == 0 {
        lemma_zero_text()
    } else {
        let w = short_digits(m, lead_from(m, -330), 1);
        short_digits_read_back(m);
        lemma_positional(w.0, w.1, m)
    };
    assert(float_text(bits) =~= sign + (ints + (seq!['.'] + frac)));
    lemma_float_value(neg, ints, frac, m);
    lemma_point_back(b, p, neg, ints, frac);
}

proof fn lemma_literal_back(b: Seq<u8>, p: int, lit: Seq<char>, i: nat, v: ValueView)
    requires
        stands(b, p, lit),
        i <= encode_utf8(lit).len(),
    ensures
        read_literal(b, p + i, lit, encode_utf8(lit), i, v) == Read::Done(v, after(p, lit)),
    decreases encode_utf8(lit).len() - i,
{
    if i < encode_utf8(lit).len() {
        assert(b.subrange(p, after(p, lit))[i as int] == b[p + i]);
        lemma_literal_back(b, p, lit, i + 1, v);
    }
}

/// A literal and its first character.
proof fn lemma_word_back(b: Seq<u8>, p: int, lit: Seq<char>, c: char, v: ValueView)
    requires
        stands(b, p, lit),
        lit.len() == 4 || lit.len() == 5,
        lit[0] == c,
        is_ascii_chars(lit),
    ensures
        read_literal(b, p, lit, encode_utf8(lit), 0, v) == Read::Done(v, after(p, lit)),
        p < after(p, lit) <= b.len(),
        b[p] == c as u8,
{
    lemma_literal_back(b, p, lit, 0, v);
    lemma_ascii(b, p, lit);
    assert(b[p + 0] == lit[0] as u8);
}

/// The items from the `i`-th on, with commas between them.
spec fn items_from(s: Seq<ValueView>, i: nat) -> Seq<char>
    decreases s.len() - i,
{
    if i >= s.len() {
        seq![]
    } else if i + 1 == s.len() {
        value_text(s[i as int])
    } else {
        value_text(s[i as int]) + (seq![','] + items_from(s, i + 1))
    }
}

spec fn entries_from(s: Seq<(Seq<char>, ValueView)>, i: nat) -> Seq<char>
    decreases s.len() - i,
{
    if i >= s.len() {
        seq![]
    } else if i + 1 == s.len() {
        entry_text(s[i as int])
    } else {
        entry_text(s[i as int]) + (seq![','] + entries_from(s, i + 1))
    }
}

proof fn lemma_items_shape(s: Seq<ValueView>, n: nat)
    requires
        0 < n <= s.len(),
    ensures
        item_texts(s, n) + (if n < s.len() { seq![','] + items_from(s, n) } else { seq![] }) == items_from(s, 0),
    decreases n,
{
    let c: Seq<char> = seq![','];
    let rest: Seq<char> = if n < s.len() { c + items_from(s, n) } else { seq![] };
    if n == 1 {
        assert(item_texts(s, n) + rest =~= items_from(s, 0));
    } else {
        let m = (n - 1) as nat;
        lemma_items_shape(s, m);
        assert(items_from(s, m) =~= value_text(s[m as int]) + rest);
        assert(item_texts(s, n) + rest =~= item_texts(s, m) + (c + items_from(s, m)));
    }
}

proof fn lemma_entries_shape(s: Seq<(Seq<char>, ValueView)>, n: nat)
    requires
        0 < n <= s.len(),
    ensures
        entry_texts(s, n) + (if n < s.len() { seq![','] + entries_from(s, n) } else { seq![] }) == entries_from(s, 0),
    decreases n,
{
    let c: Seq<char> = seq![','];
    let rest: Seq<char> = if n < s.len() { c + entries_from(s, n) } else { seq![] };
    if n == 1 {
        assert(entry_texts(s, n) + rest =~= entries_from(s, 0));
    } else {
        let m = (n - 1) as nat;
        lemma_entries_shape(s, m);
        assert(entries_from(s, m) =~= entry_text(s[m as int]) + rest);
        assert(entry_texts(s, n) + rest =~= entry_texts(s, m) + (c + entries_from(s, m)));
    }
}

#[verifier::spinoff_prover]
#[verifier::rlimit(60)]
proof fn lemma_value_back(b: Seq<u8>, p: int, v: ValueView)
    requires
        json_value(v),
        finite_floats(v),
        stands(b, p, value_text(v)),
        may_end(b, after(p, value_text(v))),
    ensures
        read_value(b, p) == Read::Done(v, after(p, value_text(v))),
        p < after(p, value_text(v)) <= b.len(),
        !is_space(b[p]),
    decreases v, 0nat,
{
    match v {
        ValueView::Bool(x) => {
            reveal_strlit("true");
            reveal_strlit("false");
            lemma_word_back(b, p, value_text(v), if x { 't' } else { 'f' }, v);
        },
        ValueView::Int(n) => {
            lemma_int_back(b, p, n);
        },
        ValueView::Float(n) => {
            lemma_float_back(b, p, n);
        },
        ValueView::Str(s) => {
            lemma_text_back(b, p, s);
        },
        ValueView::Json(j) => match j {
            JsonView::Null => {
                reveal_strlit("null");
                lemma_word_back(b, p, "null"@, 'n', v);
            },
            JsonView::Array(s) => {
                let close: Seq<char> = seq![']'];
                if s.len() == 0 {
                    assert(value_text(v) =~= seq!['['] + close);
                    lemma_parts(b, p, seq!['['], close);
                    lemma_one(b, p, '[');
                    lemma_one(b, p + 1, ']');
                    assert(s =~= seq![]);
                } else {
                    lemma_items_shape(s, s.len());
                    assert(item_texts(s, s.len()) =~= items_from(s, 0));
                    assert(value_text(v) =~= seq!['['] + (items_from(s, 0) + close));
                    lemma_parts(b, p, seq!['['], items_from(s, 0) + close);
                    lemma_one(b, p, '[');
                    lemma_list_back(b, p + 1, s, 0);
                    assert(s.take(0) =~= seq![]);
                }
            },
            JsonView::Object(s) => {
                let close: Seq<char> = seq!['}'];
                if s.len() == 0 {
                    assert(value_text(v) =~= seq!['{'] + close);
                    lemma_parts(b, p, seq!['{'], close);
                    lemma_one(b, p, '{');
                    lemma_one(b, p + 1, '}');
                    assert(s =~= seq![]);
                } else {
                    lemma_entries_shape(s, s.len());
                    assert(entry_texts(s, s.len()) =~= entries_from(s, 0));
                    assert(value_text(v) =~= seq!['{'] + (entries_from(s, 0) + close));
                    lemma_parts(b, p, seq!['{'], entries_from(s, 0) + close);
                    lemma_one(b, p, '{');
                    lemma_object_back(b, p + 1, s, 0);
                    assert(s.take(0) =~= seq![]);
                }
            },
        },
        _ => {},
    }
}

#[verifier::spinoff_prover]
#[verifier::rlimit(60)]
proof fn lemma_list_back(b: Seq<u8>, p: int, s: Seq<ValueView>, i: nat)
    requires
        i < s.len(),
        forall|k: int| 0 <= k < s.len() ==> json_value(#[trigger] s[k]) && finite_floats(s[k]),
        stands(b, p, items_from(s, i) + seq![']']),
    ensures
        read_items(b, p, s.take(i as int)) == Read::Done(
            ValueView::Json(JsonView::Array(s)),
            after(p, items_from(s, i) + seq![']']),
        ),
        p < after(p, items_from(s, i) + seq![']']) <= b.len(),
        !is_space(b[p]) && b[p] != 93,
    decreases s, s.len() - i,
{
    let close: Seq<char> = seq![']'];
    let t = value_text(s[i as int]);
    let q = after(p, t);
    if i + 1 == s.len() {
        lemma_parts(b, p, t, close);
        lemma_one(b, q, ']');
        lemma_value_back(b, p, s[i as int]);
        assert(s.take(i as int).push(s[i as int]) =~= s);
    } else {
        let more = items_from(s, i + 1) + close;
        assert(items_from(s, i) + close =~= t + (seq![','] + more));
        lemma_parts(b, p, t, seq![','] + more);
        lemma_parts(b, q, seq![','], more);
        lemma_one(b, q, ',');
        lemma_value_back(b, p, s[i as int]);
        lemma_list_back(b, q + 1, s, i + 1);
        assert(s.take(i as int).push(s[i as int]) =~= s.take(i as int + 1));
    }
}

#[verifier::spinoff_prover]
#[verifier::rlimit(60)]
proof fn lemma_object_back(b: Seq<u8>, p: int, s: Seq<(Seq<char>, ValueView)>, i: nat)
    requires
        i < s.len(),
        no_key_twice(s),
        forall|k: int| 0 <= k < s.len() ==> json_value((#[trigger] s[k]).1) && finite_floats(s[k].1),
        stands(b, p, entries_from(s, i) + seq!['}']),
    ensures
        read_entries(b, p, s.take(i as int)) == Read::Done(
            ValueView::Json(JsonView::Object(s)),
            after(p, entries_from(s, i) + seq!['}']),
        ),
        p < after(p, entries_from(s, i) + seq!['}']) <= b.len(),
        b[p] == 34,
    decreases s, s.len() - i,
{
    let close: Seq<char> = seq!['}'];
    let e = s[i as int];
    let last = i + 1 == s.len();
    let more: Seq<char> = if last { close } else { seq![','] + (entries_from(s, i + 1) + close) };
    assert(entries_from(s, i) + close =~= entry_text(e) + more);
    assert(entry_text(e) + more =~= quoted(e.0) + (seq![':'] + (value_text(e.1) + more)));
    lemma_parts(b, p, quoted(e.0), seq![':'] + (value_text(e.1) + more));
    lemma_text_back(b, p, e.0);
    let q = after(p, quoted(e.0));
    lemma_parts(b, q, seq![':'], value_text(e.1) + more);
    lemma_one(b, q, ':');
    lemma_parts(b, q + 1, value_text(e.1), more);
    let r = after(q + 1, value_text(e.1));
    lemma_put_last(s, i as int);
    if last {
        lemma_one(b, r, '}');
        lemma_value_back(b, q + 1, e.1);
        assert(s.take(i as int + 1) =~= s);
    } else {
        lemma_parts(b, r, seq![','], entries_from(s, i + 1) + close);
        lemma_one(b, r, ',');
        lemma_value_back(b, q + 1, e.1);
        lemma_object_back(b, r + 1, s, i + 1);
    }
}

/// Reading the canonical text of a value that a JSON text can spell, and whose floats
/// are finite, gives the value back.
pub proof fn canonical_text_reads_back(v: ValueView)
    requires
        json_value(v),
        finite_floats(v),
    ensures
        read_all(encode_utf8(value_text(v))) == Read::Done(v, encode_utf8(value_text(v)).len() as int),
{
    let b = encode_utf8(value_text(v));
    assert(b.subrange(0, b.len() as int) =~= b);
    lemma_value_back(b, 0, v);
}

/// Whether what was read, if anything was, is a value that a JSON text can spell.
spec fn read_json(r: Read<ValueView>) -> bool {
    r matches Read::Done(v, _) ==> json_value(v)
}

proof fn lemma_value_read(b: Seq<u8>, p: int)
    ensures
        read_json(read_value(b, p)),
    decreases b.len() - p, 0nat,
{
    let q = after_space(b, p);
    if q < p || q >= b.len() {
    } else if b[q] == 110 {
        lemma_literal_read(b, q, "null"@, encode_utf8("null"@), 0, ValueView::Json(JsonView::Null));
    } else if b[q] == 116 {
        lemma_literal_read(b, q, "true"@, encode_utf8("true"@), 0, ValueView::Bool(true));
    } else if b[q] == 102 {
        lemma_literal_read(b, q, "false"@, encode_utf8("false"@), 0, ValueView::Bool(false));
    } else if b[q] == 91 {
        let r = after_space(b, q + 1);
        if !(r < b.len() && b[r] == 93) && q < r <= b.len() {
            lemma_items_read(b, r, seq![]);
        }
    } else if b[q] == 123 {
        let r = after_space(b, q + 1);
        if !(r < b.len() && b[r] == 125) && q < r <= b.len() {
            lemma_entries_read(b, r, seq![]);
        }
    }
}

proof fn lemma_literal_read(b: Seq<u8>, p: int, lit: Seq<char>, bytes: Seq<u8>, i: nat, v: ValueView)
    ensures
        read_literal(b, p, lit, bytes, i, v) matches Read::Done(w, _) ==> w == v,
    decreases bytes.len() - i,
{
    if i < bytes.len() && p < b.len() && b[p] == bytes[i as int] {
        lemma_literal_read(b, p + 1, lit, bytes, i + 1, v);
    }
}

proof fn lemma_items_read(b: Seq<u8>, p: int, acc: Seq<ValueView>)
    requires
        forall|k: int| 0 <= k < acc.len() ==> json_value(#[trigger] acc[k]),
    ensures
        read_json(read_items(b, p, acc)),
    decreases b.len() - p, 1nat,
{
    lemma_value_read(b, p);
    match read_value(b, p) {
        Read::Fail(m, q) => {},
        Read::Done(v, q) => {
            let r = after_space(b, q);
            let more = acc.push(v);
            assert forall|k: int| 0 <= k < more.len() implies json_value(#[trigger] more[k]) by {
                if k < acc.len() {
                    assert(more[k] == acc[k]);
                }
            }
            if r < b.len() && b[r] == 44 {
                let n = after_space(b, r + 1);
                if p < n <= b.len() {
                    lemma_items_read(b, n, more);
                }
            }
        },
    }
}

proof fn lemma_entries_read(b: Seq<u8>, p: int, acc: Seq<(Seq<char>, ValueView)>)
    requires
        no_key_twice(acc),
        forall|k: int| 0 <= k < acc.len() ==> json_value((#[trigger] acc[k]).1),
    ensures
        read_json(read_entries(b, p, acc)),
    decreases b.len() - p, 1nat,
{
    match read_text(b, after_space(b, p)) {
        Read::Fail(m, q) => {},
        Read::Done(key, q) => {
            let c = after_space(b, q);
            let w = after_space(b, c + 1);
            if c < b.len() && b[c] == 58 && p < w <= b.len() {
                lemma_value_read(b, w);
                match read_value(b, w) {
                    Read::Fail(m, x) => {},
                    Read::Done(v, x) => {
                        let r = after_space(b, x);
                        let more = put(acc, key, v);
                        put_keeps_keys_apart(acc, key, v);
                        lemma_field_at_range(acc, key, 0);
                        assert forall|k: int| 0 <= k < more.len() implies json_value((#[trigger] more[k]).1) by {
                            if k < acc.len() {
                                assert(more[k] == acc[k] || more[k].1 == v);
                            }
                        }
                        if r < b.len() && b[r] == 44 && p < r + 1 {
                            lemma_entries_read(b, r + 1, more);
                        }
                    },
                }
            }
        },
    }
}

/// Where a text is read, the value is one that a JSON text can spell; and where its
/// floats are finite, reading its canonical text gives it back.
pub proof fn parsed_values_read_back(s: Seq<char>)
    ensures
        read_all(encode_utf8(s)) matches Read::Done(v, _) ==> {
            &&& json_value(v)
            &&& finite_floats(v) ==> read_all(encode_utf8(value_text(v))) == Read::Done(
                v,
                encode_utf8(value_text(v)).len() as int,
            )
        },
{
    let b = encode_utf8(s);
    lemma_value_read(b, after_space(b, 0));
    match read_all(b) {
        Read::Done(v, _) => {
            if finite_floats(v) {
                canonical_text_reads_back(v);
            }
        },
        Read::Fail(_, _) => {},
    }
}

} // verus!
