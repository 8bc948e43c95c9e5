//! JSON: reading, canonical text, and the binary form of its composites.
//!
//! `null`, arrays and objects are [`Json`] values; numbers, texts and booleans
//! are ordinary values. A number without a fraction or an exponent is an `int`
//! of any size, another one a float.

use vstd::prelude::*;
use vstd::utf8::{decode_utf8, encode_utf8, valid_utf8};
use crate::bigint::{BigInt, digits_val, int_literal_val, is_int_literal};
use crate::binary64::{INFINITE, SIGN, finite, float_text, nearest, nearest_float, push_float};
use crate::bytes::{be_bytes, be_val, get_be, push_all, push_be, slice_vec};
use crate::codec::text_from_utf8;
use crate::entries::{entries_of, Entries};
use crate::text::{concat2, concat3, concat_num, decimal, hex2, push_char, push_decimal, text};
use crate::value::{
    Json, JsonView, Value, ValueView, field_at, field_views, field_weights, json_view, json_weight, lemma_field_at_range,
    lemma_field_weight_at, lemma_weight_at, no_key_twice, value_view, views, weight, weights,
};

verus! {

/// What reading from some place gives: a result and the place behind it, or a
/// message and the place where it arose.
pub enum Read<T> {
    Done(T, int),
    Fail(Seq<char>, int),
}

/// Why a text is no JSON, and where.
#[derive(Debug)]
pub struct ParseError {
    pub msg: String,
    pub pos: usize,
}

impl ParseError {
    pub fn to_string(&self) -> (r: String)
        ensures
            r@ == "JSON parse error at "@ + decimal(self.pos as nat) + ": "@ + self.msg@,
    {
        let mut r = concat_num("JSON parse error at ", self.pos as u128, ": ");
        r.append(self.msg.as_str());
        r
    }
}

pub open spec fn is_space(c: u8) -> bool {
    c == 32 || c == 9 || c == 10 || c == 13
}

/// The first place from `p` on that holds no white space.
pub open spec fn after_space(b: Seq<u8>, p: int) -> int
    decreases b.len() - p,
{
    if p < b.len() && is_space(b[p]) {
        after_space(b, p + 1)
    } else {
        p
    }
}

pub open spec fn is_digit(c: u8) -> bool {
    48 <= c <= 57
}

/// The first place from `p` on that holds no digit.
pub open spec fn after_digits(b: Seq<u8>, p: int) -> int
    decreases b.len() - p,
{
    if p < b.len() && is_digit(b[p]) {
        after_digits(b, p + 1)
    } else {
        p
    }
}

/// The `{:?}` form of a character.
pub uninterp spec fn char_debug(c: char) -> Seq<char>;

/// `format!("{:?}", c)`: the debug form that std gives a character.
#[verifier::external_body]
fn debug_char(c: char) -> (r: String)
    ensures
        r@ == char_debug(c),
{
    format!("{:?}", c)
}

/// Whether the literal's bytes stand at `p`, from its `i`-th on.
pub open spec fn read_literal<T>(b: Seq<u8>, p: int, lit: Seq<char>, bytes: Seq<u8>, i: nat, v: T) -> Read<T>
    decreases bytes.len() - i,
{
    if i >= bytes.len() {
        Read::Done(v, p)
    } else if p >= b.len() {
        Read::Fail("expected literal '"@ + lit + "'"@, p)
    } else if b[p] != bytes[i as int] {
        Read::Fail("expected literal '"@ + lit + "'"@, p + 1)
    } else {
        read_literal(b, p + 1, lit, bytes, i + 1, v)
    }
}

pub open spec fn hex_digit(c: u8) -> Option<nat> {
    if 48 <= c <= 57 {
        Some((c - 48) as nat)
    } else if 97 <= c <= 102 {
        Some((c - 87) as nat)
    } else if 65 <= c <= 70 {
        Some((c - 55) as nat)
    } else {
        None
    }
}

/// The number spelled by the `n` hexadecimal digits from `p` on, after `acc`.
pub open spec fn read_hex(b: Seq<u8>, p: int, n: nat, acc: nat) -> Read<nat>
    decreases n,
{
    if n == 0 {
        Read::Done(acc, p)
    } else if p >= b.len() {
        Read::Fail("incomplete \\u escape"@, p)
    } else {
        match hex_digit(b[p]) {
            Some(d) => read_hex(b, p + 1, (n - 1) as nat, acc * 16 + d),
            None => Read::Fail("invalid \\u hex digit"@, p + 1),
        }
    }
}

pub open spec fn is_char_code(n: nat) -> bool {
    n < 0xd800 || 0xe000 <= n < 0x11_0000
}

/// The character of a one-letter escape.
pub open spec fn short_escape(c: u8) -> Option<char> {
    if c == 34 {
        Some('"')
    } else if c == 92 {
        Some('\\')
    } else if c == 47 {
        Some('/')
    } else if c == 110 {
        Some('\n')
    } else if c == 114 {
        Some('\r')
    } else if c == 116 {
        Some('\t')
    } else if c == 98 {
        Some('\u{8}')
    } else if c == 102 {
        Some('\u{c}')
    } else {
        None
    }
}

/// The character of the escape whose letter stands at `p`.
pub open spec fn read_escape(b: Seq<u8>, p: int) -> Read<char> {
    if p >= b.len() {
        Read::Fail("incomplete escape"@, p)
    } else if b[p] == 117 {
        match read_hex(b, p + 1, 4, 0) {
            Read::Fail(m, q) => Read::Fail(m, q),
            Read::Done(n, q) => if is_char_code(n) {
                Read::Done(n as char, q)
            } else {
                Read::Fail("invalid \\u code point (surrogate pairs unsupported)"@, q)
            },
        }
    } else {
        match short_escape(b[p]) {
            Some(c) => Read::Done(c, p + 1),
            None => Read::Fail("invalid escape \\"@ + char_debug(b[p] as char), p + 1),
        }
    }
}

/// How many bytes a character takes, by its first byte.
pub open spec fn utf8_width(c: u8) -> int {
    if c < 0xc0 {
        1
    } else if c < 0xe0 {
        2
    } else if c < 0xf0 {
        3
    } else {
        4
    }
}

/// The characters at `p` that stand for themselves.
pub open spec fn read_plain(b: Seq<u8>, p: int) -> Read<Seq<char>> {
    let q = p + utf8_width(b[p]);
    if q > b.len() {
        Read::Fail("incomplete UTF-8"@, b.len() as int)
    } else if valid_utf8(b.subrange(p, q)) {
        Read::Done(decode_utf8(b.subrange(p, q)), q)
    } else {
        Read::Fail("invalid UTF-8"@, q)
    }
}

/// The rest of a text up to its closing quote, after `acc`.
pub open spec fn read_chars(b: Seq<u8>, p: int, acc: Seq<char>) -> Read<Seq<char>>
    decreases b.len() - p,
{
    if p >= b.len() {
        Read::Fail("unterminated string"@, p)
    } else if b[p] == 34 {
        Read::Done(acc, p + 1)
    } else if b[p] == 92 {
        match read_escape(b, p + 1) {
            Read::Fail(m, q) => Read::Fail(m, q),
            Read::Done(c, q) => if p < q <= b.len() {
                read_chars(b, q, acc.push(c))
            } else {
                Read::Fail(seq![], q)
            },
        }
    } else if b[p] < 0x20 {
        Read::Fail("control character in string"@, p + 1)
    } else {
        match read_plain(b, p) {
            Read::Fail(m, q) => Read::Fail(m, q),
            Read::Done(s, q) => if p < q <= b.len() {
                read_chars(b, q, acc + s)
            } else {
                Read::Fail(seq![], q)
            },
        }
    }
}

/// The text whose opening quote is due at `p`.
pub open spec fn read_text(b: Seq<u8>, p: int) -> Read<Seq<char>> {
    if p >= b.len() {
        Read::Fail("expected '\"'"@, p)
    } else if b[p] != 34 {
        Read::Fail("expected '\"'"@, p + 1)
    } else {
        read_chars(b, p + 1, seq![])
    }
}

/// The number that starts at `p`.
pub open spec fn read_number(b: Seq<u8>, p: int) -> Read<ValueView> {
    let neg = p < b.len() && b[p] == 45;
    let i0 = if neg { p + 1 } else { p };
    let i1 = after_digits(b, i0);
    if i1 == i0 {
        Read::Fail("expected digits"@, i1)
    } else {
        let dot = i1 < b.len() && b[i1] == 46;
        let f0 = if dot { i1 + 1 } else { i1 };
        let f1 = if dot { after_digits(b, f0) } else { f0 };
        if dot && f1 == f0 {
            Read::Fail("expected digits after '.'"@, f1)
        } else {
            let exp = f1 < b.len() && (b[f1] == 101 || b[f1] == 69);
            let s0 = if exp { f1 + 1 } else { f1 };
            let signed = exp && s0 < b.len() && (b[s0] == 43 || b[s0] == 45);
            let e0 = if signed { s0 + 1 } else { s0 };
            let e1 = if exp { after_digits(b, e0) } else { e0 };
            if exp && e1 == e0 {
                Read::Fail("expected digits in exponent"@, e1)
            } else if dot || exp {
                let size = digits_val(b.subrange(e0, e1)) as int;
                let e = if exp { if signed && b[s0] == 45 { -size } else { size } } else { 0 };
                Read::Done(
                    ValueView::Float(
                        float_value(neg, b.subrange(i0, i1), if dot { b.subrange(f0, f1) } else { seq![] }, e),
                    ),
                    e1,
                )
            } else {
                Read::Done(ValueView::Int(int_literal_val(b.subrange(p, i1))), e1)
            }
        }
    }
}

/// The float that a sign, digits, digits after the point and an exponent spell.
#[verifier::opaque]
pub open spec fn float_value(neg: bool, ints: Seq<u8>, frac: Seq<u8>, e: int) -> u64 {
    let m = nearest(digits_val(ints + frac), e - frac.len()) as u64;
    if neg {
        (m + SIGN) as u64
    } else {
        m
    }
}

/// The value that starts at `p`, after white space.
pub open spec fn read_value(b: Seq<u8>, p: int) -> Read<ValueView>
    decreases b.len() - p, 0nat,
{
    let q = after_space(b, p);
    if q < p || q >= b.len() {
        Read::Fail("unexpected end of input"@, q)
    } else if b[q] == 110 {
        read_literal(b, q, "null"@, encode_utf8("null"@), 0, ValueView::Json(JsonView::Null))
    } else if b[q] == 116 {
        read_literal(b, q, "true"@, encode_utf8("true"@), 0, ValueView::Bool(true))
    } else if b[q] == 102 {
        read_literal(b, q, "false"@, encode_utf8("false"@), 0, ValueView::Bool(false))
    } else if b[q] == 34 {
        match read_text(b, q) {
            Read::Fail(m, r) => Read::Fail(m, r),
            Read::Done(s, r) => Read::Done(ValueView::Str(s), r),
        }
    } else if b[q] == 91 {
        let r = after_space(b, q + 1);
        if r < b.len() && b[r] == 93 {
            Read::Done(ValueView::Json(JsonView::Array(seq![])), r + 1)
        } else if q < r <= b.len() {
            read_items(b, r, seq![])
        } else {
            Read::Fail(seq![], r)
        }
    } else if b[q] == 123 {
        let r = after_space(b, q + 1);
        if r < b.len() && b[r] == 125 {
            Read::Done(ValueView::Json(JsonView::Object(seq![])), r + 1)
        } else if q < r <= b.len() {
            read_entries(b, r, seq![])
        } else {
            Read::Fail(seq![], r)
        }
    } else if b[q] == 45 || is_digit(b[q]) {
        read_number(b, q)
    } else {
        Read::Fail("unexpected byte "@ + decimal(b[q] as nat), q)
    }
}

/// The rest of an array whose next item is due at `p`, after `acc`.
pub open spec fn read_items(b: Seq<u8>, p: int, acc: Seq<ValueView>) -> Read<ValueView>
    decreases b.len() - p, 1nat,
{
    match read_value(b, p) {
        Read::Fail(m, q) => Read::Fail(m, q),
        Read::Done(v, q) => {
            let r = after_space(b, q);
            if r >= b.len() {
                Read::Fail("unterminated array"@, r)
            } else if b[r] == 44 {
                let n = after_space(b, r + 1);
                if p < n <= b.len() {
                    read_items(b, n, acc.push(v))
                } else {
                    Read::Fail(seq![], n)
                }
            } else if b[r] == 93 {
                Read::Done(ValueView::Json(JsonView::Array(acc.push(v))), r + 1)
            } else {
                Read::Fail("expected ',' or ']' in array, got "@ + char_debug(b[r] as char), r + 1)
            }
        },
    }
}

/// The entries with one more: a key that is there keeps its place and gets the
/// new value.
pub open spec fn put(s: Seq<(Seq<char>, ValueView)>, key: Seq<char>, v: ValueView) -> Seq<
    (Seq<char>, ValueView),
> {
    match field_at(s, key, 0) {
        Some(k) => s.update(k, (key, v)),
        None => s.push((key, v)),
    }
}

/// The rest of an object whose next key is due at `p`, after `acc`.
pub open spec fn read_entries(b: Seq<u8>, p: int, acc: Seq<(Seq<char>, ValueView)>) -> Read<ValueView>
    decreases b.len() - p, 1nat,
{
    match read_text(b, after_space(b, p)) {
        Read::Fail(m, q) => Read::Fail(m, q),
        Read::Done(key, q) => {
            let c = after_space(b, q);
            if c >= b.len() {
                Read::Fail("expected ':' after object key"@, c)
            } else if b[c] != 58 {
                Read::Fail("expected ':' after object key"@, c + 1)
            } else {
                let w = after_space(b, c + 1);
                if !(p < w <= b.len()) {
                    Read::Fail(seq![], w)
                } else {
                    match read_value(b, w) {
                        Read::Fail(m, x) => Read::Fail(m, x),
                        Read::Done(v, x) => {
                            let r = after_space(b, x);
                            if r >= b.len() {
                                Read::Fail("unterminated object"@, r)
                            } else if b[r] == 44 {
                                if p < r + 1 {
                                    read_entries(b, r + 1, put(acc, key, v))
                                } else {
                                    Read::Fail(seq![], r)
                                }
                            } else if b[r] == 125 {
                                Read::Done(ValueView::Json(JsonView::Object(put(acc, key, v))), r + 1)
                            } else {
                                Read::Fail(
                                    "expected ',' or '}' in object, got "@ + char_debug(b[r] as char),
                                    r + 1,
                                )
                            }
                        },
                    }
                }
            }
        },
    }
}

/// The value that a whole text spells.
pub open spec fn read_all(b: Seq<u8>) -> Read<ValueView> {
    match read_value(b, after_space(b, 0)) {
        Read::Fail(m, q) => Read::Fail(m, q),
        Read::Done(v, q) => {
            let r = after_space(b, q);
            if r != b.len() {
                Read::Fail("unexpected trailing data at "@ + decimal(r as nat), r)
            } else {
                Read::Done(v, r)
            }
        },
    }
}

/// Whether an outcome is the one that is owed: a value and the place behind it.
pub open spec fn got(r: Result<Value, ParseError>, want: Read<ValueView>, from: int, to: int) -> bool {
    match want {
        Read::Done(v, p) => from < p == to && match r {
            Ok(x) => value_view(x) == v,
            Err(_) => false,
        },
        Read::Fail(m, p) => match r {
            Ok(_) => false,
            Err(e) => e.msg@ == m && e.pos == p,
        },
    }
}

fn fail<T>(msg: String, pos: usize) -> (r: Result<T, ParseError>)
    ensures
        match r {
            Ok(_) => false,
            Err(e) => e.msg@ == msg@ && e.pos == pos,
        },
{
    Err(ParseError { msg, pos })
}

fn skip_ws(b: &[u8], p: usize) -> (r: usize)
    requires
        p <= b@.len(),
    ensures
        r == after_space(b@, p as int),
        p <= r <= b@.len(),
{
    let mut q: usize = p;
    assert(b.len() == b@.len());
    while q < b.len()
        invariant
            p <= q <= b@.len(),
            after_space(b@, p as int) == after_space(b@, q as int),
        decreases b@.len() - q,
    {
        let c: u8 = b[q];
        if !(c == 32 || c == 9 || c == 10 || c == 13) {
            return q;
        }
        q = q + 1;
    }
    q
}

fn skip_digits(b: &[u8], p: usize) -> (r: usize)
    requires
        p <= b@.len(),
    ensures
        r == after_digits(b@, p as int),
        p <= r <= b@.len(),
        forall|k: int| p <= k < r ==> is_digit(#[trigger] b@[k]),
{
    let mut q: usize = p;
    assert(b.len() == b@.len());
    while q < b.len()
        invariant
            p <= q <= b@.len(),
            after_digits(b@, p as int) == after_digits(b@, q as int),
            forall|k: int| p <= k < q ==> is_digit(#[trigger] b@[k]),
        decreases b@.len() - q,
    {
        let c: u8 = b[q];
        if !(48 <= c && c <= 57) {
            return q;
        }
        q = q + 1;
    }
    q
}

fn parse_lit(b: &[u8], pos: &mut usize, lit: &str, v: Value) -> (r: Result<Value, ParseError>)
    requires
        *old(pos) < b@.len(),
        encode_utf8(lit@).len() > 0,
    ensures
        got(
            r,
            read_literal(b@, *old(pos) as int, lit@, encode_utf8(lit@), 0, value_view(v)),
            *old(pos) as int,
            *final(pos) as int,
        ),
        r is Ok ==> *final(pos) <= b@.len(),
{
    let bytes = lit.as_bytes();
    let mut i: usize = 0;
    let ghost p0 = *pos as int;
    assert(b.len() == b@.len());
    while i < bytes.len()
        invariant
            i <= bytes@.len(),
            bytes@ == encode_utf8(lit@),
            *pos == p0 + i,
            p0 == *old(pos),
            *pos <= b@.len(),
            b.len() == b@.len(),
            read_literal(b@, p0, lit@, bytes@, 0, value_view(v)) == read_literal(
                b@,
                *pos as int,
                lit@,
                bytes@,
                i as nat,
                value_view(v),
            ),
        decreases bytes@.len() - i,
    {
        if *pos >= b.len() {
            return fail(concat3("expected literal '", lit, "'"), *pos);
        }
        if b[*pos] != bytes[i] {
            return fail(concat3("expected literal '", lit, "'"), *pos + 1);
        }
        *pos = *pos + 1;
        i = i + 1;
    }
    Ok(v)
}

fn hex_value(c: u8) -> (r: Option<u32>)
    ensures
        match r {
            Some(d) => hex_digit(c) == Some(d as nat) && d < 16,
            None => hex_digit(c) is None,
        },
{
    if 48 <= c && c <= 57 {
        Some((c - 48) as u32)
    } else if 97 <= c && c <= 102 {
        Some((c - 87) as u32)
    } else if 65 <= c && c <= 70 {
        Some((c - 55) as u32)
    } else {
        None
    }
}

/// `char::from_u32`: the character with a code, if it has one.
#[verifier::external_body]
fn char_from_code(n: u32) -> (r: Option<char>)
    ensures
        match r {
            Some(c) => is_char_code(n as nat) && c == n as char,
            None => !is_char_code(n as nat),
        },
{
    char::from_u32(n)
}

#[verifier::rlimit(30)]
fn parse_escape(b: &[u8], pos: &mut usize) -> (r: Result<char, ParseError>)
    requires
        *old(pos) <= b@.len(),
    ensures
        match read_escape(b@, *old(pos) as int) {
            Read::Done(c, q) => r == Ok::<char, ParseError>(c) && *final(pos) == q && *old(pos) < q
                <= b@.len(),
            Read::Fail(m, q) => match r {
                Ok(_) => false,
                Err(e) => e.msg@ == m && e.pos == q,
            },
        },
{
    let p: usize = *pos;
    assert(b.len() == b@.len());
    if p >= b.len() {
        return fail(text("incomplete escape"), p);
    }
    let c: u8 = b[p];
    if c == 117 {
        let mut hex: u32 = 0;
        let mut i: usize = 0;
        let mut q: usize = p + 1;
        while i < 4
            invariant
                i <= 4,
                q == p + 1 + i,
                q <= b@.len(),
                p == *old(pos),
                p < b@.len(),
                b@[p as int] == 117,
                b.len() == b@.len(),
                hex < 0x1_0000,
                i == 0 ==> hex < 1,
                i == 1 ==> hex < 16,
                i == 2 ==> hex < 256,
                i == 3 ==> hex < 4096,
                read_hex(b@, p + 1, 4, 0) == read_hex(b@, q as int, (4 - i) as nat, hex as nat),
            decreases 4 - i,
        {
            if q >= b.len() {
                return fail(text("incomplete \\u escape"), q);
            }
            match hex_value(b[q]) {
                Some(d) => {
                    hex = hex * 16 + d;
                },
                None => return fail(text("invalid \\u hex digit"), q + 1),
            }
            q = q + 1;
            i = i + 1;
        }
        *pos = q;
        match char_from_code(hex) {
            Some(x) => Ok(x),
            None => fail(text("invalid \\u code point (surrogate pairs unsupported)"), q),
        }
    } else {
        *pos = p + 1;
        if c == 34 {
            Ok('"')
        } else if c == 92 {
            Ok('\\')
        } else if c == 47 {
            Ok('/')
        } else if c == 110 {
            Ok('\n')
        } else if c == 114 {
            Ok('\r')
        } else if c == 116 {
            Ok('\t')
        } else if c == 98 {
            Ok('\u{8}')
        } else if c == 102 {
            Ok('\u{c}')
        } else {
            fail(concat2("invalid escape \\", debug_char(c as char).as_str()), p + 1)
        }
    }
}

#[verifier::rlimit(30)]
fn parse_string(b: &[u8], pos: &mut usize) -> (r: Result<String, ParseError>)
    requires
        *old(pos) <= b@.len(),
    ensures
        match read_text(b@, *old(pos) as int) {
            Read::Done(s, q) => *final(pos) == q && *old(pos) < q <= b@.len() && match r {
                Ok(x) => x@ == s,
                Err(_) => false,
            },
            Read::Fail(m, q) => match r {
                Ok(_) => false,
                Err(e) => e.msg@ == m && e.pos == q,
            },
        },
{
    let p: usize = *pos;
    assert(b.len() == b@.len());
    if p >= b.len() {
        return fail(text("expected '\"'"), p);
    }
    if b[p] != 34 {
        return fail(text("expected '\"'"), p + 1);
    }
    let mut out = text("");
    let mut q: usize = p + 1;
    proof {
        reveal_strlit("");
        assert(out@ =~= seq![]);
    }
    while q < b.len()
        invariant
            p < q <= b@.len(),
            b.len() == b@.len(),
            p < b@.len() && b@[p as int] == 34,
            p == *old(pos),
            read_text(b@, p as int) == read_chars(b@, q as int, out@),
        decreases b@.len() - q,
    {
        let c: u8 = b[q];
        if c == 34 {
            *pos = q + 1;
            return Ok(out);
        } else if c == 92 {
            let mut at: usize = q + 1;
            match parse_escape(b, &mut at) {
                Ok(x) => {
                    push_char(&mut out, x);
                    q = at;
                },
                Err(e) => return Err(e),
            }
        } else if c < 0x20 {
            return fail(text("control character in string"), q + 1);
        } else {
            let n: usize = if c < 0xc0 {
                1
            } else if c < 0xe0 {
                2
            } else if c < 0xf0 {
                3
            } else {
                4
            };
            if n > b.len() - q {
                return fail(text("incomplete UTF-8"), b.len());
            }
            match text_from_utf8(slice_vec(b, q, q + n)) {
                Some(s) => {
                    out.append(s.as_str());
                    q = q + n;
                },
                None => return fail(text("invalid UTF-8"), q + n),
            }
        }
    }
    fail(text("unterminated string"), q)
}

/// The exponent that some digits spell, or a number beyond all that count.
fn read_exponent(b: &[u8], from: usize, to: usize) -> (r: u128)
    requires
        from <= to <= b@.len(),
        forall|k: int| from <= k < to ==> is_digit(#[trigger] b@[k]),
    ensures
        r <= 0x1000_0000_0000_0000_0000_0000_0000,
        r < 0x1000_0000_0000_0000_0000_0000_0000 ==> r == digits_val(b@.subrange(from as int, to as int)),
        r == 0x1000_0000_0000_0000_0000_0000_0000 ==> digits_val(b@.subrange(from as int, to as int)) >= r,
{
    let mut r: u128 = 0;
    let mut i: usize = from;
    while i < to
        invariant
            from <= i <= to <= b@.len(),
            forall|k: int| from <= k < to ==> is_digit(#[trigger] b@[k]),
            r <= 0x1000_0000_0000_0000_0000_0000_0000,
            r < 0x1000_0000_0000_0000_0000_0000_0000 ==> r == digits_val(b@.subrange(from as int, i as int)),
            r == 0x1000_0000_0000_0000_0000_0000_0000 ==> digits_val(b@.subrange(from as int, i as int)) >= r,
        decreases to - i,
    {
        assert(b@.subrange(from as int, i + 1).drop_last() =~= b@.subrange(from as int, i as int));
        assert(b@.subrange(from as int, i + 1).last() == b@[i as int]);
        let d: u8 = b[i] - 48;
        let next: u128 = r * 10 + d as u128;
        r = if next < 0x1000_0000_0000_0000_0000_0000_0000 {
            next
        } else {
            0x1000_0000_0000_0000_0000_0000_0000
        };
        i = i + 1;
    }
    r
}

proof fn lemma_digits_bound(s: Seq<u8>)
    requires
        forall|k: int| 0 <= k < s.len() ==> is_digit(#[trigger] s[k]),
    ensures
        digits_val(s) < crate::binary64::ten(s.len()),
    decreases s.len(),
{
    if s.len() > 0 {
        let t = s.drop_last();
        assert forall|k: int| 0 <= k < t.len() implies is_digit(#[trigger] t[k]) by {
            assert(t[k] == s[k]);
        }
        lemma_digits_bound(t);
        assert(is_digit(s[s.len() - 1]));
    }
}

/// The float that some digits spell.
fn make_float(b: &[u8], neg: bool, i0: usize, i1: usize, f0: usize, f1: usize, e: i128) -> (r: u64)
    requires
        i0 < i1 <= b@.len(),
        f0 <= f1 <= b@.len(),
        forall|k: int| i0 <= k < i1 ==> is_digit(#[trigger] b@[k]),
        forall|k: int| f0 <= k < f1 ==> is_digit(#[trigger] b@[k]),
        -0x2000_0000_0000_0000_0000_0000_0000 <= e <= 0x2000_0000_0000_0000_0000_0000_0000,
    ensures
        r == float_value(
            neg,
            b@.subrange(i0 as int, i1 as int),
            b@.subrange(f0 as int, f1 as int),
            e as int,
        ),
{
    proof {
        reveal(float_value);
    }
    let mut digits = slice_vec(b, i0, i1);
    let frac = slice_vec(b, f0, f1);
    push_all(&mut digits, frac.as_slice());
    let ghost all = b@.subrange(i0 as int, i1 as int) + b@.subrange(f0 as int, f1 as int);
    assert(digits@ =~= all);
    proof {
        assert forall|k: int| 0 <= k < all.len() implies is_digit(#[trigger] all[k]) by {
            if k < i1 - i0 {
                assert(all[k] == b@[i0 + k]);
            } else {
                assert(all[k] == b@[f0 + (k - (i1 - i0))]);
            }
        }
        assert(all[0] == b@[i0 as int]);
        assert(is_digit(all[0]));
        assert(is_int_literal(digits@)) by {
            assert(digits@[0] != 45);
            assert forall|k: int| 0 <= k < digits@.len() implies 48 <= #[trigger] digits@[k] <= 57 by {
                assert(is_digit(all[k]));
            }
        }
        lemma_digits_bound(all);
    }
    let d = match BigInt::parse(digits.as_slice()) {
        Some(d) => d,
        None => BigInt::from_i64(0),
    };
    let m = nearest_float(&d, e - (f1 - f0) as i128, digits.len());
    if neg {
        m + SIGN
    } else {
        m
    }
}

#[verifier::rlimit(60)]
fn parse_number(b: &[u8], pos: &mut usize) -> (r: Result<Value, ParseError>)
    requires
        *old(pos) < b@.len(),
        b@[*old(pos) as int] == 45 || is_digit(b@[*old(pos) as int]),
    ensures
        got(r, read_number(b@, *old(pos) as int), *old(pos) as int, *final(pos) as int),
        r is Ok ==> *final(pos) <= b@.len(),
{
    let p: usize = *pos;
    assert(b.len() == b@.len());
    let neg = b[p] == 45;
    let i0: usize = if neg { p + 1 } else { p };
    let i1 = skip_digits(b, i0);
    if i1 == i0 {
        return fail(text("expected digits"), i1);
    }
    let dot = i1 < b.len() && b[i1] == 46;
    let f0: usize = if dot { i1 + 1 } else { i1 };
    let f1: usize = if dot { skip_digits(b, f0) } else { f0 };
    if dot && f1 == f0 {
        return fail(text("expected digits after '.'"), f1);
    }
    let exp = f1 < b.len() && (b[f1] == 101 || b[f1] == 69);
    let s0: usize = if exp { f1 + 1 } else { f1 };
    let signed = exp && s0 < b.len() && (b[s0] == 43 || b[s0] == 45);
    let e0: usize = if signed { s0 + 1 } else { s0 };
    let e1: usize = if exp { skip_digits(b, e0) } else { e0 };
    if exp && e1 == e0 {
        return fail(text("expected digits in exponent"), e1);
    }
    *pos = e1;
    if dot || exp {
        let size: u128 = if exp { read_exponent(b, e0, e1) } else { 0 };
        let down = signed && b[s0] == 45;
        let e: i128 = if down { 0 - size as i128 } else { size as i128 };
        let bits: u64 = make_float(b, neg, i0, i1, f0, f1, e);
        proof {
            let spelled = digits_val(b@.subrange(e0 as int, e1 as int)) as int;
            let want = if exp { if down { -spelled } else { spelled } } else { 0 };
            let ints = b@.subrange(i0 as int, i1 as int);
            let frac = b@.subrange(f0 as int, f1 as int);
            assert(!dot ==> frac =~= seq![]);
            if exp && size == 0x1000_0000_0000_0000_0000_0000_0000 {
                lemma_far_exponent(neg, ints, frac, e as int, want);
            }
            assert(bits == float_value(neg, ints, frac, want));
        }
        Ok(Value::Float(bits))
    } else {
        let lit = slice_vec(b, p, i1);
        proof {
            let d = if neg { lit@.skip(1) } else { lit@ };
            assert forall|k: int| 0 <= k < d.len() implies 48 <= #[trigger] d[k] <= 57 by {
                assert(d[k] == b@[i0 + k]);
                assert(is_digit(b@[i0 + k]));
            }
            assert(lit@[0] == b@[p as int]);
            assert(is_int_literal(lit@));
        }
        match BigInt::parse(lit.as_slice()) {
            Some(n) => Ok(Value::Int(n)),
            None => Ok(Value::Unit),
        }
    }
}

/// Beyond some size an exponent's exact value no longer counts.
proof fn lemma_far_exponent(neg: bool, ints: Seq<u8>, frac: Seq<u8>, near: int, far: int)
    requires
        ints.len() <= 0xffff_ffff_ffff_ffff,
        frac.len() <= 0xffff_ffff_ffff_ffff,
        forall|k: int| 0 <= k < ints.len() ==> is_digit(#[trigger] ints[k]),
        forall|k: int| 0 <= k < frac.len() ==> is_digit(#[trigger] frac[k]),
        (near == 0x1000_0000_0000_0000_0000_0000_0000 && far >= near) || (near
            == -0x1000_0000_0000_0000_0000_0000_0000 && far <= near),
    ensures
        float_value(neg, ints, frac, near) == float_value(neg, ints, frac, far),
{
    reveal(float_value);
    let s = ints + frac;
    assert forall|k: int| 0 <= k < s.len() implies is_digit(#[trigger] s[k]) by {
        if k < ints.len() {
            assert(s[k] == ints[k]);
        } else {
            assert(s[k] == frac[k - ints.len()]);
        }
    }
    lemma_digits_bound(s);
    crate::binary64::far_exponents_agree(digits_val(s), s.len(), near - frac.len(), far - frac.len());
}

fn parse_value(b: &[u8], pos: &mut usize) -> (r: Result<Value, ParseError>)
    requires
        *old(pos) <= b@.len(),
    ensures
        got(r, read_value(b@, *old(pos) as int), *old(pos) as int, *final(pos) as int),
        r is Ok ==> *final(pos) <= b@.len(),
    decreases b@.len() - *old(pos), 1nat,
{
    let ghost p0 = *pos as int;
    *pos = skip_ws(b, *pos);
    assert(b.len() == b@.len());
    let q: usize = *pos;
    if q >= b.len() {
        return fail(text("unexpected end of input"), q);
    }
    let c: u8 = b[q];
    proof {
        reveal_strlit("null");
        reveal_strlit("true");
        reveal_strlit("false");
        lemma_nonempty("null"@);
        lemma_nonempty("true"@);
        lemma_nonempty("false"@);
    }
    if c == 110 {
        parse_lit(b, pos, "null", Value::Json(Json::Null))
    } else if c == 116 {
        parse_lit(b, pos, "true", Value::Bool(true))
    } else if c == 102 {
        parse_lit(b, pos, "false", Value::Bool(false))
    } else if c == 34 {
        match parse_string(b, pos) {
            Ok(s) => Ok(Value::Str(s)),
            Err(e) => Err(e),
        }
    } else if c == 91 {
        parse_array(b, pos)
    } else if c == 123 {
        parse_object(b, pos)
    } else if c == 45 || (48 <= c && c <= 57) {
        parse_number(b, pos)
    } else {
        let mut msg = text("unexpected byte ");
        push_decimal(&mut msg, c as u128);
        fail(msg, q)
    }
}

proof fn lemma_nonempty(s: Seq<char>)
    requires
        s.len() > 0,
    ensures
        encode_utf8(s).len() > 0,
{
    if encode_utf8(s).len() == 0 {
        vstd::utf8::encode_utf8_decode_utf8(s);
        assert(encode_utf8(s) =~= seq![]);
        assert(decode_utf8(Seq::<u8>::empty()).len() == 0);
    }
}

#[verifier::loop_isolation(false)]
fn parse_array(b: &[u8], pos: &mut usize) -> (r: Result<Value, ParseError>)
    requires
        *old(pos) < b@.len(),
        b@[*old(pos) as int] == 91,
    ensures
        got(r, read_value(b@, *old(pos) as int), *old(pos) as int, *final(pos) as int),
        r is Ok ==> *final(pos) <= b@.len(),
    decreases b@.len() - *old(pos), 0nat,
{
    let ghost p0 = *pos as int;
    assert(b.len() == b@.len());
    assert(after_space(b@, p0) == p0);
    let mut items: Vec<Value> = Vec::new();
    *pos = skip_ws(b, *pos + 1);
    assert(views(items@) =~= seq![]);
    if *pos < b.len() && b[*pos] == 93 {
        *pos = *pos + 1;
        return Ok(Value::Json(Json::Array(items)));
    }
    let ghost want = read_value(b@, p0);
    assert(want == read_items(b@, *pos as int, views(items@)));
    loop
        invariant
            p0 < *pos <= b@.len(),
            want == read_items(b@, *pos as int, views(items@)),
        decreases b@.len() - *pos,
    {
        let ghost before = views(items@);
        match parse_value(b, pos) {
            Ok(v) => {
                items.push(v);
                assert(views(items@) =~= before.push(value_view(v)));
            },
            Err(e) => return Err(e),
        }
        let r: usize = skip_ws(b, *pos);
        if r >= b.len() {
            return fail(text("unterminated array"), r);
        }
        let c: u8 = b[r];
        if c == 44 {
            *pos = skip_ws(b, r + 1);
        } else if c == 93 {
            *pos = r + 1;
            return Ok(Value::Json(Json::Array(items)));
        } else {
            return fail(
                concat2("expected ',' or ']' in array, got ", debug_char(c as char).as_str()),
                r + 1,
            );
        }
    }
}

#[verifier::loop_isolation(false)]
#[verifier::rlimit(30)]
fn parse_object(b: &[u8], pos: &mut usize) -> (r: Result<Value, ParseError>)
    requires
        *old(pos) < b@.len(),
        b@[*old(pos) as int] == 123,
    ensures
        got(r, read_value(b@, *old(pos) as int), *old(pos) as int, *final(pos) as int),
        r is Ok ==> *final(pos) <= b@.len(),
    decreases b@.len() - *old(pos), 0nat,
{
    let ghost p0 = *pos as int;
    assert(b.len() == b@.len());
    assert(after_space(b@, p0) == p0);
    let mut entries = Entries::new();
    *pos = skip_ws(b, *pos + 1);
    if *pos < b.len() && b[*pos] == 125 {
        *pos = *pos + 1;
        return Ok(Value::Json(Json::Object(entries)));
    }
    let ghost want = read_value(b@, p0);
    assert(want == read_entries(b@, *pos as int, entries_of(entries)));
    loop
        invariant
            p0 < *pos <= b@.len(),
            want == read_entries(b@, *pos as int, entries_of(entries)),
        decreases b@.len() - *pos,
    {
        *pos = skip_ws(b, *pos);
        let key = match parse_string(b, pos) {
            Ok(k) => k,
            Err(e) => return Err(e),
        };
        let c: usize = skip_ws(b, *pos);
        if c >= b.len() {
            return fail(text("expected ':' after object key"), c);
        }
        if b[c] != 58 {
            return fail(text("expected ':' after object key"), c + 1);
        }
        *pos = skip_ws(b, c + 1);
        let v = match parse_value(b, pos) {
            Ok(v) => v,
            Err(e) => return Err(e),
        };
        entries.insert(key, v);
        let r: usize = skip_ws(b, *pos);
        if r >= b.len() {
            return fail(text("unterminated object"), r);
        }
        let x: u8 = b[r];
        if x == 44 {
            *pos = r + 1;
        } else if x == 125 {
            *pos = r + 1;
            return Ok(Value::Json(Json::Object(entries)));
        } else {
            return fail(
                concat2("expected ',' or '}' in object, got ", debug_char(x as char).as_str()),
                r + 1,
            );
        }
    }
}

/// Reads a JSON text.
pub fn parse(s: &str) -> (r: Result<Value, ParseError>)
    ensures
        match read_all(encode_utf8(s@)) {
            Read::Done(v, _) => match r {
                Ok(x) => x@ == v,
                Err(_) => false,
            },
            Read::Fail(m, p) => match r {
                Ok(_) => false,
                Err(e) => e.msg@ == m && e.pos == p,
            },
        },
{
    let b = s.as_bytes();
    assert(b.len() == b@.len());
    let mut pos: usize = skip_ws(b, 0);
    let v = match parse_value(b, &mut pos) {
        Ok(v) => v,
        Err(e) => return Err(e),
    };
    let q: usize = skip_ws(b, pos);
    if q != b.len() {
        let mut msg = text("unexpected trailing data at ");
        push_decimal(&mut msg, q as u128);
        return fail(msg, q);
    }
    Ok(v)
}

/// A character inside a JSON text.
pub open spec fn escaped(c: char) -> Seq<char> {
    if c == '"' {
        "\\\""@
    } else if c == '\\' {
        "\\\\"@
    } else if c == '\n' {
        "\\n"@
    } else if c == '\r' {
        "\\r"@
    } else if c == '\t' {
        "\\t"@
    } else if (c as u32) < 0x20 {
        "\\u00"@ + hex2(c as u8)
    } else {
        seq![c]
    }
}

pub open spec fn escaped_all(s: Seq<char>, n: nat) -> Seq<char>
    decreases n,
    when n <= s.len()
{
    if n == 0 {
        seq![]
    } else {
        escaped_all(s, (n - 1) as nat) + escaped(s[n - 1])
    }
}

/// A text in quotes.
pub open spec fn quoted(s: Seq<char>) -> Seq<char> {
    seq!['"'] + escaped_all(s, s.len()) + seq!['"']
}

/// The first `n` items with commas between them.
pub open spec fn item_texts(s: Seq<ValueView>, n: nat) -> Seq<char>
    decreases s, n,
    when n <= s.len()
{
    if n == 0 {
        seq![]
    } else if n == 1 {
        value_text(s[0])
    } else {
        item_texts(s, (n - 1) as nat) + seq![','] + value_text(s[n - 1])
    }
}

pub open spec fn entry_text(e: (Seq<char>, ValueView)) -> Seq<char>
    decreases e,
{
    quoted(e.0) + seq![':'] + value_text(e.1)
}

/// The first `n` entries with commas between them.
pub open spec fn entry_texts(s: Seq<(Seq<char>, ValueView)>, n: nat) -> Seq<char>
    decreases s, n,
    when n <= s.len()
{
    if n == 0 {
        seq![]
    } else if n == 1 {
        entry_text(s[0])
    } else {
        entry_texts(s, (n - 1) as nat) + seq![','] + entry_text(s[n - 1])
    }
}

pub open spec fn json_text(j: JsonView) -> Seq<char>
    decreases j,
{
    match j {
        JsonView::Null => "null"@,
        JsonView::Array(s) => seq!['['] + item_texts(s, s.len()) + seq![']'],
        JsonView::Object(s) => seq!['{'] + entry_texts(s, s.len()) + seq!['}'],
    }
}

/// The canonical text of a value. What has no JSON form becomes `null`.
pub open spec fn value_text(v: ValueView) -> Seq<char>
    decreases v,
{
    match v {
        ValueView::Bool(b) => if b {
            "true"@
        } else {
            "false"@
        },
        ValueView::Int(n) => crate::bigint::decimal_int(n),
        ValueView::UInt(n) => crate::bigint::decimal_int(n),
        ValueView::Float(n) => if finite(n) {
            float_text(n)
        } else {
            "null"@
        },
        ValueView::Str(s) => quoted(s),
        ValueView::Json(j) => json_text(j),
        _ => "null"@,
    }
}

fn write_string(s: &str, out: &mut String)
    ensures
        final(out)@ == old(out)@ + quoted(s@),
{
    let ghost o = out@;
    push_char(out, '"');
    let n: usize = s.unicode_len();
    let mut i: usize = 0;
    assert(out@ =~= o + (seq!['"'] + escaped_all(s@, 0)));
    while i < n
        invariant
            i <= n == s@.len(),
            out@ == o + (seq!['"'] + escaped_all(s@, i as nat)),
        decreases n - i,
    {
        let c = s.get_char(i);
        let ghost before = out@;
        if c == '"' {
            out.append("\\\"");
        } else if c == '\\' {
            out.append("\\\\");
        } else if c == '\n' {
            out.append("\\n");
        } else if c == '\r' {
            out.append("\\r");
        } else if c == '\t' {
            out.append("\\t");
        } else if (c as u32) < 0x20 {
            out.append(crate::text::concat_hex("\\u00", c as u8).as_str());
        } else {
            push_char(out, c);
        }
        assert(out@ =~= before + escaped(c));
        assert(out@ =~= o + (seq!['"'] + escaped_all(s@, i as nat + 1)));
        i = i + 1;
    }
    push_char(out, '"');
    assert(out@ =~= o + quoted(s@));
}

/// Appends the canonical text of a value.
pub fn write_canonical_value(v: &Value, out: &mut String)
    ensures
        final(out)@ == old(out)@ + value_text(value_view(*v)),
    decreases weight(value_view(*v)),
{
    match v {
        Value::Bool(b) => if *b {
            out.append("true");
        } else {
            out.append("false");
        },
        Value::Int(n) => out.append(n.to_string().as_str()),
        Value::UInt(n) => out.append(n.to_string().as_str()),
        Value::Float(n) => {
            let m: u64 = if *n >= SIGN {
                *n - SIGN
            } else {
                *n
            };
            if m < INFINITE {
                push_float(out, *n);
            } else {
                out.append("null");
            }
        },
        Value::Str(s) => write_string(s.as_str(), out),
        Value::Json(j) => write_canonical_json(j, out),
        _ => out.append("null"),
    }
}

#[verifier::loop_isolation(false)]
fn write_items(v: &Vec<Value>, out: &mut String)
    ensures
        final(out)@ == old(out)@ + item_texts(views(v@), v@.len()),
    decreases weights(views(v@), v@.len()),
{
    let ghost o = out@;
    let ghost s = views(v@);
    let mut i: usize = 0;
    assert(out@ =~= o + item_texts(s, 0));
    while i < v.len()
        invariant
            i <= v@.len(),
            out@ == o + item_texts(s, i as nat),
        decreases v@.len() - i,
    {
        let ghost before = out@;
        if i > 0 {
            push_char(out, ',');
        }
        let ghost mid = out@;
        proof {
            lemma_weight_at(s, s.len(), i as int);
        }
        write_canonical_value(&v[i], out);
        assert(out@ == mid + value_text(s[i as int]));
        assert(out@ =~= o + item_texts(s, i as nat + 1));
        i = i + 1;
    }
}

#[verifier::loop_isolation(false)]
fn write_entries(e: &Entries, out: &mut String)
    ensures
        final(out)@ == old(out)@ + entry_texts(entries_of(*e), entries_of(*e).len()),
    decreases field_weights(entries_of(*e), entries_of(*e).len()),
{
    let ghost o = out@;
    let ghost s = entries_of(*e);
    let n: usize = e.len();
    let mut i: usize = 0;
    assert(out@ =~= o + entry_texts(s, 0));
    while i < n
        invariant
            i <= n == s.len(),
            out@ == o + entry_texts(s, i as nat),
        decreases n - i,
    {
        if i > 0 {
            push_char(out, ',');
        }
        let ghost mid = out@;
        match e.at(i) {
            Some((k, v)) => {
                write_string(k.as_str(), out);
                push_char(out, ':');
                let ghost head = out@;
                proof {
                    lemma_field_weight_at(s, s.len(), i as int);
                }
                write_canonical_value(v, out);
                assert(out@ == head + value_text(s[i as int].1));
                assert(out@ =~= mid + entry_text(s[i as int]));
            },
            None => {},
        }
        assert(out@ =~= o + entry_texts(s, i as nat + 1));
        i = i + 1;
    }
}

fn write_canonical_json(j: &Json, out: &mut String)
    ensures
        final(out)@ == old(out)@ + json_text(j@),
    decreases json_weight(json_view(*j)),
{
    let ghost o = out@;
    match j {
        Json::Null => out.append("null"),
        Json::Array(v) => {
            push_char(out, '[');
            write_items(v, out);
            push_char(out, ']');
            assert(out@ =~= o + json_text(j@));
        },
        Json::Object(v) => {
            push_char(out, '{');
            write_entries(v, out);
            push_char(out, '}');
            assert(out@ =~= o + json_text(j@));
        },
    }
}

/// The first `n` pairs added one after another.
pub open spec fn put_all(s: Seq<(Seq<char>, ValueView)>, n: nat) -> Seq<(Seq<char>, ValueView)>
    decreases n,
    when n <= s.len()
{
    if n == 0 {
        seq![]
    } else {
        put(put_all(s, (n - 1) as nat), s[n - 1].0, s[n - 1].1)
    }
}

impl Json {
    /// The object with the given entries; of two with one key the later value counts,
    /// at the place of the first.
    pub fn object(pairs: &Vec<(String, Value)>) -> (r: Json)
        ensures
            r@ == JsonView::Object(put_all(field_views(pairs@), pairs@.len())),
    {
        let ghost s = field_views(pairs@);
        let mut e = Entries::new();
        let mut i: usize = 0;
        while i < pairs.len()
            invariant
                i <= pairs@.len(),
                s == field_views(pairs@),
                entries_of(e) == put_all(s, i as nat),
            decreases pairs@.len() - i,
        {
            assert(s[i as int] == (pairs@[i as int].0@, value_view(pairs@[i as int].1)));
            e.insert(pairs[i].0.clone(), pairs[i].1.copy());
            i = i + 1;
        }
        Json::Object(e)
    }

    /// The entry at a place of an object.
    pub fn entry_at(&self, i: usize) -> (r: Option<(&String, &Value)>)
        ensures
            match self@ {
                JsonView::Object(s) => if i < s.len() {
                    r matches Some(p) && s[i as int] == (p.0@, p.1@)
                } else {
                    r is None
                },
                _ => r is None,
            },
    {
        match self {
            Json::Object(e) => e.at(i),
            _ => None,
        }
    }

    /// The value under a key of an object.
    pub fn get_field(&self, key: &str) -> (r: Option<&Value>)
        ensures
            match self@ {
                JsonView::Object(s) => match field_at(s, key@, 0) {
                    Some(k) => match r {
                        Some(v) => v@ == s[k].1,
                        None => false,
                    },
                    None => r is None,
                },
                _ => r is None,
            },
    {
        match self {
            Json::Object(v) => v.get(key),
            _ => None,
        }
    }

    /// An item of an array.
    pub fn get_index(&self, idx: usize) -> (r: Option<&Value>)
        ensures
            match self@ {
                JsonView::Array(s) => if idx < s.len() {
                    match r {
                        Some(v) => v@ == s[idx as int],
                        None => false,
                    }
                } else {
                    r is None
                },
                _ => r is None,
            },
    {
        match self {
            Json::Array(v) => if idx < v.len() {
                Some(&v[idx])
            } else {
                None
            },
            _ => None,
        }
    }

    /// The canonical text.
    pub fn to_string_canonical(&self) -> (r: String)
        ensures
            r@ == json_text(self@),
    {
        let mut out = text("");
        write_canonical_json(self, &mut out);
        proof {
            reveal_strlit("");
        }
        assert(out@ =~= json_text(self@));
        out
    }
}

/// Adding an entry leaves no key twice.
pub proof fn put_keeps_keys_apart(s: Seq<(Seq<char>, ValueView)>, key: Seq<char>, v: ValueView)
    requires
        no_key_twice(s),
    ensures
        no_key_twice(put(s, key, v)),
        field_at(put(s, key, v), key, 0) is Some,
{
    lemma_field_at_range(s, key, 0);
    let t = put(s, key, v);
    match field_at(s, key, 0) {
        Some(k) => {
            assert(s[k].0 == key);
            assert forall|i: int, j: int| 0 <= i < j < t.len() implies (#[trigger] t[i]).0 != (
            #[trigger] t[j]).0 by {
                assert(t[i].0 == s[i].0 && t[j].0 == s[j].0);
            }
            crate::value::lemma_field_at(t, k, 0);
        },
        None => {
            assert forall|i: int, j: int| 0 <= i < j < t.len() implies (#[trigger] t[i]).0 != (
            #[trigger] t[j]).0 by {
                if j < s.len() {
                    assert(t[i].0 == s[i].0 && t[j].0 == s[j].0);
                } else {
                    assert(t[i].0 == s[i].0);
                }
            }
            crate::value::lemma_field_at(t, s.len() as int, 0);
        },
    }
}

/// Adding an entry leaves the values under all other keys as they were.
pub proof fn put_leaves_other_keys(s: Seq<(Seq<char>, ValueView)>, key: Seq<char>, v: ValueView, k: int)
    requires
        0 <= k < s.len(),
        s[k].0 != key,
    ensures
        put(s, key, v)[k] == s[k],
{
    lemma_field_at_range(s, key, 0);
}

/// The binary form of the first `n` items, each given in its own binary form.
pub open spec fn framed_items(enc: Seq<Seq<u8>>, n: nat) -> Seq<u8>
    decreases n,
    when n <= enc.len()
{
    if n == 0 {
        seq![]
    } else {
        framed_items(enc, (n - 1) as nat) + enc[n - 1]
    }
}

/// The binary form of the first `n` entries, each value given in its own binary
/// form.
pub open spec fn framed_entries(s: Seq<(Seq<char>, ValueView)>, enc: Seq<Seq<u8>>, n: nat) -> Seq<u8>
    decreases n,
    when n <= enc.len()
{
    if n == 0 {
        seq![]
    } else {
        framed_entries(s, enc, (n - 1) as nat) + be_bytes(encode_utf8(s[n - 1].0).len(), 4) + encode_utf8(
            s[n - 1].0,
        ) + enc[n - 1]
    }
}

/// The binary form of a composite, whose parts' binary forms are given in order.
pub open spec fn framed(j: JsonView, enc: Seq<Seq<u8>>) -> Seq<u8> {
    match j {
        JsonView::Null => seq![0u8],
        JsonView::Array(s) => seq![1u8] + be_bytes(s.len(), 4) + framed_items(enc, s.len()),
        JsonView::Object(s) => seq![2u8] + be_bytes(s.len(), 4) + framed_entries(s, enc, s.len()),
    }
}

/// The number of parts of a composite.
pub open spec fn count_parts(j: JsonView) -> nat {
    match j {
        JsonView::Null => 0,
        JsonView::Array(s) => s.len(),
        JsonView::Object(s) => s.len(),
    }
}

pub open spec fn byte_lists(v: Seq<Vec<u8>>) -> Seq<Seq<u8>> {
    Seq::new(v.len(), |i: int| v[i]@)
}

/// The binary form of a composite; `enc` holds the binary forms of its parts.
#[verifier::loop_isolation(false)]
#[verifier::rlimit(30)]
pub fn serialize(j: &Json, enc: &Vec<Vec<u8>>) -> (r: Vec<u8>)
    requires
        enc@.len() == count_parts(j@),
        count_parts(j@) < 0x1_0000_0000,
    ensures
        r@ == framed(j@, byte_lists(enc@)),
{
    let mut out: Vec<u8> = Vec::new();
    let ghost e = byte_lists(enc@);
    match j {
        Json::Null => {
            out.push(0);
            assert(out@ =~= framed(j@, e));
        },
        Json::Array(v) => {
            out.push(1);
            push_be(&mut out, v.len() as u128, 4);
            let ghost head = out@;
            assert(head =~= seq![1u8] + be_bytes(v@.len(), 4));
            let mut i: usize = 0;
            assert(out@ =~= head + framed_items(e, 0));
            while i < v.len()
                invariant
                    i <= v@.len() == enc@.len(),
                    out@ == head + framed_items(e, i as nat),
                decreases v@.len() - i,
            {
                push_all(&mut out, enc[i].as_slice());
                assert(out@ =~= head + framed_items(e, i as nat + 1));
                i = i + 1;
            }
            assert(out@ =~= framed(j@, e));
        },
        Json::Object(v) => {
            let ghost s = entries_of(*v);
            let n: usize = v.len();
            out.push(2);
            push_be(&mut out, n as u128, 4);
            let ghost head = out@;
            assert(head =~= seq![2u8] + be_bytes(s.len(), 4));
            let mut i: usize = 0;
            assert(out@ =~= head + framed_entries(s, e, 0));
            while i < n
                invariant
                    i <= n == s.len() == enc@.len(),
                    out@ == head + framed_entries(s, e, i as nat),
                decreases n - i,
            {
                let ghost before = out@;
                match v.at(i) {
                    Some((k, _)) => {
                        let key = k.as_str().as_bytes();
                        push_be(&mut out, key.len() as u128, 4);
                        push_all(&mut out, key);
                    },
                    None => {},
                }
                push_all(&mut out, enc[i].as_slice());
                assert(out@ =~= head + framed_entries(s, e, i as nat + 1));
                i = i + 1;
            }
            assert(out@ =~= framed(j@, e));
        },
    }
    out
}

/// Where the items end that start at `p`, by their sizes, from the `i`-th on.
pub open spec fn items_end(b: Seq<u8>, p: int, inner: Seq<usize>, i: nat, n: nat) -> Option<int>
    decreases n - i,
{
    if i >= n {
        Some(p)
    } else if p > b.len() || i >= inner.len() {
        None
    } else {
        items_end(b, p + inner[i as int], inner, i + 1, n)
    }
}

/// Where the entries end that start at `p`.
pub open spec fn entries_end(b: Seq<u8>, p: int, inner: Seq<usize>, i: nat, n: nat) -> Option<int>
    decreases n - i,
{
    if i >= n {
        Some(p)
    } else if p + 4 > b.len() {
        None
    } else {
        let q = p + 4 + be_val(b.subrange(p, p + 4));
        if q > b.len() || i >= inner.len() {
            None
        } else {
            entries_end(b, q + inner[i as int], inner, i + 1, n)
        }
    }
}

/// The size of the composite at the start of `b`; `inner` holds the sizes of its
/// parts, as many as are known.
pub open spec fn size_of_composite(b: Seq<u8>, inner: Seq<usize>) -> Option<int> {
    if b.len() == 0 {
        None
    } else if b[0] == 0 {
        Some(1)
    } else if b[0] == 1 && b.len() >= 5 {
        items_end(b, 5, inner, 0, be_val(b.subrange(1, 5)))
    } else if b[0] == 2 && b.len() >= 5 {
        entries_end(b, 5, inner, 0, be_val(b.subrange(1, 5)))
    } else {
        None
    }
}

/// How many bytes the composite at the start of `bytes` takes. `inner` holds the
/// sizes of the values inside it, in order. There is no size where the bytes do not
/// start with a composite that their lengths and these sizes describe, or where the
/// size is beyond a `usize`.
#[verifier::rlimit(30)]
pub fn byte_size(bytes: &[u8], inner: &Vec<usize>) -> (r: Option<usize>)
    ensures
        match size_of_composite(bytes@, inner@) {
            Some(n) => if n <= usize::MAX {
                r == Some(n as usize)
            } else {
                r is None
            },
            None => r is None,
        },
{
    assert(bytes.len() == bytes@.len());
    if bytes.len() == 0 {
        return None;
    }
    let tag: u8 = bytes[0];
    if tag == 0 {
        return Some(1);
    }
    if bytes.len() < 5 || tag > 2 {
        return None;
    }
    let n: u128 = get_be(bytes, 1, 4);
    let ghost want = size_of_composite(bytes@, inner@);
    proof {
        crate::bytes::lemma_pow256();
    }
    let mut total: usize = 5;
    let mut i: usize = 0;
    while (i as u128) < n
        invariant
            i <= n,
            n <= 0xffff_ffff,
            bytes.len() == bytes@.len(),
            tag == 1 || tag == 2,
            tag == 1 ==> want == items_end(bytes@, total as int, inner@, i as nat, n as nat),
            tag == 2 ==> want == entries_end(bytes@, total as int, inner@, i as nat, n as nat),
            want == size_of_composite(bytes@, inner@),
        decreases n - i,
    {
        if tag == 1 {
            if total > bytes.len() || i >= inner.len() {
                return None;
            }
            total = match total.checked_add(inner[i]) {
                Some(t) => t,
                None => {
                    proof {
                        reveal_with_fuel(items_end, 3);
                    }
                    return None;
                },
            };
        } else {
            if total > bytes.len() || bytes.len() - total < 4 {
                return None;
            }
            let len: u128 = get_be(bytes, total, 4);
            proof {
                crate::bytes::lemma_pow256();
            }
            let room: usize = bytes.len() - total - 4;
            if len > room as u128 || i >= inner.len() {
                return None;
            }
            total = total + 4 + len as usize;
            total = match total.checked_add(inner[i]) {
                Some(t) => t,
                None => {
                    proof {
                        reveal_with_fuel(entries_end, 3);
                    }
                    return None;
                },
            };
        }
        i = i + 1;
    }
    Some(total)
}

proof fn lemma_items_end(b: Seq<u8>, head: Seq<u8>, enc: Seq<Seq<u8>>, inner: Seq<usize>, i: nat)
    requires
        i <= enc.len() == inner.len(),
        forall|k: int| 0 <= k < enc.len() ==> (#[trigger] enc[k]).len() == inner[k],
        b == head + framed_items(enc, enc.len()),
    ensures
        items_end(b, (head.len() + framed_items(enc, i).len()) as int, inner, i, enc.len()) == Some(b.len() as int),
    decreases enc.len() - i,
{
    lemma_framed_grows(enc, i, enc.len());
    if i < enc.len() {
        lemma_items_end(b, head, enc, inner, i + 1);
        assert(enc[i as int].len() == inner[i as int]);
    }
}

proof fn lemma_framed_grows(enc: Seq<Seq<u8>>, i: nat, n: nat)
    requires
        i <= n <= enc.len(),
    ensures
        framed_items(enc, i).len() <= framed_items(enc, n).len(),
    decreases n - i,
{
    if i < n {
        lemma_framed_grows(enc, i, (n - 1) as nat);
    }
}

/// A part of a composite, as it was read: how many bytes it took, and its value.
#[derive(Debug)]
pub struct Part {
    pub size: usize,
    pub value: Value,
}

/// The items that start at `p`, from the `i`-th part on, after `acc`: they must end
/// with the bytes.
pub open spec fn items_in(b: Seq<u8>, p: int, parts: Seq<Part>, i: nat, n: nat, acc: Seq<ValueView>) -> Option<JsonView>
    decreases n - i,
{
    if i >= n {
        if p == b.len() {
            Some(JsonView::Array(acc))
        } else {
            None
        }
    } else if i >= parts.len() || p + parts[i as int].size > b.len() {
        None
    } else {
        items_in(b, p + parts[i as int].size, parts, i + 1, n, acc.push(value_view(parts[i as int].value)))
    }
}

/// The entries that start at `p`, from the `i`-th part on, after `acc`.
pub open spec fn entries_in(
    b: Seq<u8>,
    p: int,
    parts: Seq<Part>,
    i: nat,
    n: nat,
    acc: Seq<(Seq<char>, ValueView)>,
) -> Option<JsonView>
    decreases n - i,
{
    if i >= n {
        if p == b.len() {
            Some(JsonView::Object(acc))
        } else {
            None
        }
    } else if p + 4 > b.len() {
        None
    } else {
        let q = p + 4 + be_val(b.subrange(p, p + 4));
        if q > b.len() || !valid_utf8(b.subrange(p + 4, q)) || i >= parts.len() || q + parts[i as int].size > b.len() {
            None
        } else {
            entries_in(
                b,
                q + parts[i as int].size,
                parts,
                i + 1,
                n,
                put(acc, decode_utf8(b.subrange(p + 4, q)), value_view(parts[i as int].value)),
            )
        }
    }
}

/// The composite whose binary form is `b`; `parts` holds what was read of its parts,
/// as many as could be.
pub open spec fn unframed(b: Seq<u8>, parts: Seq<Part>) -> Option<JsonView> {
    if b.len() == 0 {
        None
    } else if b[0] == 0 {
        if b.len() == 1 {
            Some(JsonView::Null)
        } else {
            None
        }
    } else if b[0] == 1 && b.len() >= 5 {
        items_in(b, 5, parts, 0, be_val(b.subrange(1, 5)), seq![])
    } else if b[0] == 2 && b.len() >= 5 {
        entries_in(b, 5, parts, 0, be_val(b.subrange(1, 5)), seq![])
    } else {
        None
    }
}

/// Whether a result is the composite that is owed.
pub open spec fn composed(r: Option<Json>, want: Option<JsonView>) -> bool {
    match want {
        Some(j) => r matches Some(x) && json_view(x) == j,
        None => r is None,
    }
}

fn gather_items(b: &[u8], n: u128, parts: &Vec<Part>) -> (r: Option<Json>)
    requires
        b@.len() >= 5,
        n <= 0xffff_ffff,
    ensures
        composed(r, items_in(b@, 5, parts@, 0, n as nat, seq![])),
{
    let ghost want = items_in(b@, 5, parts@, 0, n as nat, seq![]);
    let mut items: Vec<Value> = Vec::new();
    let mut pos: usize = 5;
    let mut i: usize = 0;
    assert(views(items@) =~= seq![]);
    while (i as u128) < n
        invariant
            i <= n <= 0xffff_ffff,
            b.len() == b@.len(),
            pos <= b@.len(),
            want == items_in(b@, pos as int, parts@, i as nat, n as nat, views(items@)),
            want == items_in(b@, 5, parts@, 0, n as nat, seq![]),
        decreases n - i,
    {
        if i >= parts.len() || parts[i].size > b.len() - pos {
            return None;
        }
        let v = parts[i].value.copy();
        let ghost before = views(items@);
        items.push(v);
        assert(views(items@) =~= before.push(value_view(parts@[i as int].value)));
        pos = pos + parts[i].size;
        i = i + 1;
    }
    if pos == b.len() {
        Some(Json::Array(items))
    } else {
        None
    }
}

fn gather_entries(b: &[u8], n: u128, parts: &Vec<Part>) -> (r: Option<Json>)
    requires
        b@.len() >= 5,
        n <= 0xffff_ffff,
    ensures
        composed(r, entries_in(b@, 5, parts@, 0, n as nat, seq![])),
{
    let ghost want = entries_in(b@, 5, parts@, 0, n as nat, seq![]);
    let mut entries = Entries::new();
    let mut pos: usize = 5;
    let mut i: usize = 0;
    while (i as u128) < n
        invariant
            i <= n <= 0xffff_ffff,
            b.len() == b@.len(),
            pos <= b@.len(),
            want == entries_in(b@, pos as int, parts@, i as nat, n as nat, entries_of(entries)),
            want == entries_in(b@, 5, parts@, 0, n as nat, seq![]),
        decreases n - i,
    {
        if b.len() - pos < 4 {
            return None;
        }
        let len: u128 = get_be(b, pos, 4);
        let room: usize = b.len() - pos - 4;
        if len > room as u128 {
            return None;
        }
        let end: usize = pos + 4 + len as usize;
        let key = match text_from_utf8(slice_vec(b, pos + 4, end)) {
            Some(k) => k,
            None => return None,
        };
        if i >= parts.len() || parts[i].size > b.len() - end {
            return None;
        }
        entries.insert(key, parts[i].value.copy());
        pos = end + parts[i].size;
        i = i + 1;
    }
    if pos == b.len() {
        Some(Json::Object(entries))
    } else {
        None
    }
}

/// Reads a composite from its binary form. `parts` holds, in order, what was read of
/// the values inside it; a value that cannot be read ends the list.
pub fn deserialize(bytes: &[u8], parts: &Vec<Part>) -> (r: Option<Json>)
    ensures
        composed(r, unframed(bytes@, parts@)),
{
    assert(bytes.len() == bytes@.len());
    if bytes.len() == 0 {
        return None;
    }
    let tag: u8 = bytes[0];
    if tag == 0 {
        return if bytes.len() == 1 {
            Some(Json::Null)
        } else {
            None
        };
    }
    if bytes.len() < 5 || tag > 2 {
        return None;
    }
    let n: u128 = get_be(bytes, 1, 4);
    proof {
        crate::bytes::lemma_pow256();
    }
    if tag == 1 {
        gather_items(bytes, n, parts)
    } else {
        gather_entries(bytes, n, parts)
    }
}

/// Whether parts are those of a composite: each takes the bytes of its binary form and
/// has its value.
pub open spec fn parts_of(parts: Seq<Part>, j: JsonView, enc: Seq<Seq<u8>>) -> bool {
    &&& parts.len() == count_parts(j) == enc.len()
    &&& forall|k: int|
        0 <= k < parts.len() ==> (#[trigger] parts[k]).size == enc[k].len() && value_view(parts[k].value)
            == part_value(j, k)
}

/// The value of a part of a composite.
pub open spec fn part_value(j: JsonView, k: int) -> ValueView {
    match j {
        JsonView::Null => ValueView::Unit,
        JsonView::Array(s) => s[k],
        JsonView::Object(s) => s[k].1,
    }
}

proof fn lemma_items_back(b: Seq<u8>, head: Seq<u8>, s: Seq<ValueView>, enc: Seq<Seq<u8>>, parts: Seq<Part>, i: nat)
    requires
        i <= s.len(),
        parts_of(parts, JsonView::Array(s), enc),
        b == head + framed_items(enc, enc.len()),
    ensures
        items_in(b, (head.len() + framed_items(enc, i).len()) as int, parts, i, s.len(), s.take(i as int)) == Some(
            JsonView::Array(s),
        ),
    decreases s.len() - i,
{
    if i < s.len() {
        lemma_items_back(b, head, s, enc, parts, i + 1);
        lemma_framed_grows(enc, i + 1, enc.len());
        assert(parts[i as int].size == enc[i as int].len());
        assert(s.take(i as int).push(s[i as int]) =~= s.take(i as int + 1));
    } else {
        assert(s.take(i as int) =~= s);
    }
}

proof fn lemma_entries_prefix(s: Seq<(Seq<char>, ValueView)>, enc: Seq<Seq<u8>>, i: nat, n: nat)
    requires
        i <= n <= enc.len(),
    ensures
        framed_entries(s, enc, i).len() <= framed_entries(s, enc, n).len(),
        framed_entries(s, enc, n).take(framed_entries(s, enc, i).len() as int) == framed_entries(s, enc, i),
    decreases n - i,
{
    let a = framed_entries(s, enc, i);
    let b = framed_entries(s, enc, n);
    if i < n {
        let c = framed_entries(s, enc, (n - 1) as nat);
        lemma_entries_prefix(s, enc, i, (n - 1) as nat);
        assert(b.take(a.len() as int) =~= c.take(a.len() as int));
    } else {
        assert(b.take(a.len() as int) =~= a);
    }
}

pub(crate) proof fn lemma_put_last(s: Seq<(Seq<char>, ValueView)>, i: int)
    requires
        0 <= i < s.len(),
        no_key_twice(s),
    ensures
        put(s.take(i), s[i].0, s[i].1) == s.take(i + 1),
{
    lemma_field_at_range(s.take(i), s[i].0, 0);
    match field_at(s.take(i), s[i].0, 0) {
        Some(k) => {
            assert(s.take(i)[k] == s[k]);
            assert(s[k].0 != s[i].0);
        },
        None => {},
    }
    assert(s.take(i).push(s[i]) =~= s.take(i + 1));
}

/// Where the `i`-th entry of an object stands in its binary form.
proof fn lemma_entry_bytes(b: Seq<u8>, head: Seq<u8>, s: Seq<(Seq<char>, ValueView)>, enc: Seq<Seq<u8>>, i: nat)
    requires
        i < s.len() == enc.len(),
        encode_utf8(s[i as int].0).len() < 0x1_0000_0000,
        b == head + framed_entries(s, enc, enc.len()),
    ensures
        ({
            let key = encode_utf8(s[i as int].0);
            let p = (head.len() + framed_entries(s, enc, i).len()) as int;
            let q = p + 4 + key.len();
            &&& q + enc[i as int].len() <= b.len()
            &&& be_val(b.subrange(p, p + 4)) == key.len()
            &&& b.subrange(p + 4, q) == key
            &&& q + enc[i as int].len() == head.len() + framed_entries(s, enc, i + 1).len()
        }),
{
    let done = framed_entries(s, enc, i);
    let next = framed_entries(s, enc, i + 1);
    let all = framed_entries(s, enc, enc.len());
    let key = encode_utf8(s[i as int].0);
    let p = (head.len() + done.len()) as int;
    let q = p + 4 + key.len();
    lemma_entries_prefix(s, enc, i + 1, enc.len());
    crate::bytes::lemma_pow256();
    crate::bytes::lemma_be_bytes_len(key.len(), 4);
    crate::bytes::lemma_be_round_trip(key.len(), 4);
    assert(next == done + be_bytes(key.len(), 4) + key + enc[i as int]);
    assert forall|k: int| 0 <= k < next.len() implies #[trigger] b[head.len() + k] == next[k] by {
        assert(all.take(next.len() as int)[k] == all[k]);
    }
    assert(b.subrange(p, p + 4) =~= be_bytes(key.len(), 4)) by {
        assert forall|k: int| 0 <= k < 4 implies b.subrange(p, p + 4)[k] == be_bytes(key.len(), 4)[k] by {
            assert(b[head.len() + (done.len() + k)] == next[done.len() + k]);
        }
    }
    assert(b.subrange(p + 4, q) =~= key) by {
        assert forall|k: int| 0 <= k < key.len() implies b.subrange(p + 4, q)[k] == key[k] by {
            assert(b[head.len() + (done.len() + 4 + k)] == next[done.len() + 4 + k]);
        }
    }
}

proof fn lemma_entries_back(
    b: Seq<u8>,
    head: Seq<u8>,
    s: Seq<(Seq<char>, ValueView)>,
    enc: Seq<Seq<u8>>,
    parts: Seq<Part>,
    i: nat,
)
    requires
        i <= s.len(),
        no_key_twice(s),
        forall|k: int| 0 <= k < s.len() ==> encode_utf8((#[trigger] s[k]).0).len() < 0x1_0000_0000,
        parts_of(parts, JsonView::Object(s), enc),
        b == head + framed_entries(s, enc, enc.len()),
    ensures
        entries_in(b, (head.len() + framed_entries(s, enc, i).len()) as int, parts, i, s.len(), s.take(i as int))
            == Some(JsonView::Object(s)),
    decreases s.len() - i,
{
    if i < s.len() {
        lemma_entries_back(b, head, s, enc, parts, i + 1);
        lemma_entry_bytes(b, head, s, enc, i);
        vstd::utf8::encode_utf8_valid_utf8(s[i as int].0);
        vstd::utf8::encode_utf8_decode_utf8(s[i as int].0);
        assert(parts[i as int].size == enc[i as int].len());
        lemma_put_last(s, i as int);
    } else {
        assert(s.take(i as int) =~= s);
    }
}

proof fn lemma_entries_end(
    b: Seq<u8>,
    head: Seq<u8>,
    s: Seq<(Seq<char>, ValueView)>,
    enc: Seq<Seq<u8>>,
    inner: Seq<usize>,
    i: nat,
)
    requires
        i <= s.len() == enc.len() == inner.len(),
        forall|k: int| 0 <= k < s.len() ==> encode_utf8((#[trigger] s[k]).0).len() < 0x1_0000_0000,
        forall|k: int| 0 <= k < enc.len() ==> (#[trigger] enc[k]).len() == inner[k],
        b == head + framed_entries(s, enc, enc.len()),
    ensures
        entries_end(b, (head.len() + framed_entries(s, enc, i).len()) as int, inner, i, s.len()) == Some(
            b.len() as int,
        ),
    decreases s.len() - i,
{
    if i < s.len() {
        lemma_entries_end(b, head, s, enc, inner, i + 1);
        lemma_entry_bytes(b, head, s, enc, i);
        assert(enc[i as int].len() == inner[i as int]);
    }
}

/// Reading the binary form of a composite gives the composite back.
pub proof fn unframed_of_framed(j: JsonView, enc: Seq<Seq<u8>>, parts: Seq<Part>)
    requires
        parts_of(parts, j, enc),
        count_parts(j) < 0x1_0000_0000,
        j matches JsonView::Object(s) ==> no_key_twice(s) && forall|k: int|
            0 <= k < s.len() ==> encode_utf8((#[trigger] s[k]).0).len() < 0x1_0000_0000,
    ensures
        unframed(framed(j, enc), parts) == Some(j),
{
    let b = framed(j, enc);
    crate::bytes::lemma_pow256();
    match j {
        JsonView::Null => {},
        JsonView::Array(s) => {
            let head = seq![1u8] + be_bytes(s.len(), 4);
            crate::bytes::lemma_be_bytes_len(s.len(), 4);
            crate::bytes::lemma_be_round_trip(s.len(), 4);
            assert(b.subrange(1, 5) =~= be_bytes(s.len(), 4));
            assert(b =~= head + framed_items(enc, enc.len()));
            lemma_items_back(b, head, s, enc, parts, 0);
            assert(s.take(0) =~= seq![]);
        },
        JsonView::Object(s) => {
            let head = seq![2u8] + be_bytes(s.len(), 4);
            crate::bytes::lemma_be_bytes_len(s.len(), 4);
            crate::bytes::lemma_be_round_trip(s.len(), 4);
            assert(b.subrange(1, 5) =~= be_bytes(s.len(), 4));
            assert(b =~= head + framed_entries(s, enc, enc.len()));
            lemma_entries_back(b, head, s, enc, parts, 0);
            assert(s.take(0) =~= seq![]);
        },
    }
}

proof fn lemma_items_before(b: Seq<u8>, rest: Seq<u8>, p: int, inner: Seq<usize>, i: nat, n: nat)
    requires
        items_end(b, p, inner, i, n) is Some,
    ensures
        items_end(b + rest, p, inner, i, n) == items_end(b, p, inner, i, n),
    decreases n - i,
{
    if i < n {
        lemma_items_before(b, rest, p + inner[i as int], inner, i + 1, n);
    }
}

proof fn lemma_entries_before(b: Seq<u8>, rest: Seq<u8>, p: int, inner: Seq<usize>, i: nat, n: nat)
    requires
        0 <= p,
        entries_end(b, p, inner, i, n) is Some,
    ensures
        entries_end(b + rest, p, inner, i, n) == entries_end(b, p, inner, i, n),
    decreases n - i,
{
    if i < n {
        assert((b + rest).subrange(p, p + 4) =~= b.subrange(p, p + 4));
        let q = p + 4 + be_val(b.subrange(p, p + 4));
        lemma_entries_before(b, rest, q + inner[i as int], inner, i + 1, n);
    }
}

/// The size that is read off the binary form of a composite is that of the form,
/// whatever comes behind it.
pub proof fn size_of_a_framed_composite(j: JsonView, enc: Seq<Seq<u8>>, inner: Seq<usize>, rest: Seq<u8>)
    requires
        count_parts(j) == enc.len() == inner.len(),
        count_parts(j) < 0x1_0000_0000,
        forall|k: int| 0 <= k < enc.len() ==> (#[trigger] enc[k]).len() == inner[k],
        j matches JsonView::Object(s) ==> forall|k: int|
            0 <= k < s.len() ==> encode_utf8((#[trigger] s[k]).0).len() < 0x1_0000_0000,
    ensures
        size_of_composite(framed(j, enc) + rest, inner) == Some(framed(j, enc).len() as int),
{
    let b = framed(j, enc);
    let n = count_parts(j);
    crate::bytes::lemma_pow256();
    crate::bytes::lemma_be_bytes_len(n, 4);
    crate::bytes::lemma_be_round_trip(n, 4);
    match j {
        JsonView::Null => {},
        JsonView::Array(s) => {
            let head = seq![1u8] + be_bytes(n, 4);
            assert(b.subrange(1, 5) =~= be_bytes(n, 4));
            assert(b =~= head + framed_items(enc, enc.len()));
            lemma_items_end(b, head, enc, inner, 0);
            lemma_items_before(b, rest, 5, inner, 0, n);
            assert((b + rest).subrange(1, 5) =~= b.subrange(1, 5));
        },
        JsonView::Object(s) => {
            let head = seq![2u8] + be_bytes(n, 4);
            assert(b.subrange(1, 5) =~= be_bytes(n, 4));
            assert(b =~= head + framed_entries(s, enc, enc.len()));
            lemma_entries_end(b, head, s, enc, inner, 0);
            lemma_entries_before(b, rest, 5, inner, 0, n);
            assert((b + rest).subrange(1, 5) =~= b.subrange(1, 5));
        },
    }
}

/// Nothing has a size that does not start with the tag of a composite.
pub proof fn other_tags_have_no_size(b: Seq<u8>, inner: Seq<usize>)
    requires
        b.len() == 0 || b[0] > 2,
    ensures
        size_of_composite(b, inner) is None,
{
}

} // verus!
