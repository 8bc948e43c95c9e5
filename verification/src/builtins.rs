//! What the builtin functions come to, said over the texts, bytes and collections that
//! their arguments hold.

use vstd::prelude::*;
use crate::bytes::{be_val, lemma_be_round_trip, lemma_pow256};
use crate::error::ErrorView;
use crate::ops::{
    assert_gives, bit_not_bytes_gives, builtin_gives, bytes_concat_gives, bytes_eq_gives, bytes_len_gives,
    bytes_slice_gives, dict_get_gives, dict_has_gives, dict_len_gives, dict_remove_gives, json_get_index_gives,
    json_is_null_gives, json_to_bool_gives, json_to_i64_gives, json_to_string_gives, json_to_u64_gives, key_at,
    max_gives, member_at, min_gives, null, set_contains_gives, set_len_gives, set_remove_gives, string_concat_gives,
    string_contains_gives, sum_gives, to_be_bytes_gives, without_key, without_member,
};
use crate::value::{JsonView, ValueView, equal};

verus! {

/// Joined bytes are the first and then the second.
pub proof fn joined_bytes_hold_both(a: Seq<u8>, b: Seq<u8>)
    ensures
        bytes_concat_gives(seq![ValueView::Bytes(a), ValueView::Bytes(b)]) matches Ok(ValueView::Bytes(c))
            && bytes_len_gives(seq![ValueView::Bytes(c)]) == Ok::<ValueView, ErrorView>(
            ValueView::Int(a.len() as int + b.len()),
        ) && (forall|i: int| 0 <= i < a.len() ==> #[trigger] c[i] == a[i]) && (forall|i: int|
            a.len() <= i < a.len() + b.len() ==> #[trigger] c[i] == b[i - a.len()]) && bytes_slice_gives(
            seq![ValueView::Bytes(c), ValueView::Int(0), ValueView::Int(a.len() as int)],
        ) == Ok::<ValueView, ErrorView>(ValueView::Bytes(a)) && bytes_slice_gives(
            seq![ValueView::Bytes(c), ValueView::Int(a.len() as int), ValueView::Int(a.len() as int + b.len())],
        ) == Ok::<ValueView, ErrorView>(ValueView::Bytes(b)),
{
    let c = a + b;
    assert(c.subrange(0, a.len() as int) =~= a);
    assert(c.subrange(a.len() as int, a.len() as int + b.len()) =~= b);
}

/// A slice of bytes holds those from its start up to its end, and there is one if and
/// only if both are in order and in the bytes.
pub proof fn a_slice_holds_what_is_between(b: Seq<u8>, start: int, end: int)
    ensures
        0 <= start <= end <= b.len() ==> (bytes_slice_gives(
            seq![ValueView::Bytes(b), ValueView::Int(start), ValueView::Int(end)],
        ) matches Ok(ValueView::Bytes(s)) && s.len() == end - start && forall|i: int|
            0 <= i < s.len() ==> #[trigger] s[i] == b[start + i]),
        !(0 <= start <= end <= b.len()) ==> bytes_slice_gives(
            seq![ValueView::Bytes(b), ValueView::Int(start), ValueView::Int(end)],
        ) is Err,
{
}

/// Bytes are equal if and only if they have the same length and the same byte at every
/// place.
pub proof fn equal_bytes_are_the_same(a: Seq<u8>, b: Seq<u8>)
    ensures
        bytes_eq_gives(seq![ValueView::Bytes(a), ValueView::Bytes(b)]) == Ok::<ValueView, ErrorView>(
            ValueView::Bool(a.len() == b.len() && forall|i: int| 0 <= i < a.len() ==> #[trigger] a[i] == b[i]),
        ),
{
    if a.len() == b.len() && forall|i: int| 0 <= i < a.len() ==> #[trigger] a[i] == b[i] {
        assert(a =~= b);
    }
}

/// A byte and its complement make up 255, and the complement of the complement is the
/// byte.
pub proof fn complements_undo_each_other(b: Seq<u8>)
    ensures
        bit_not_bytes_gives(seq![ValueView::Bytes(b)]) matches Ok(ValueView::Bytes(c)) && c.len() == b.len() && (
        forall|i: int| 0 <= i < b.len() ==> #[trigger] c[i] + b[i] == 255) && bit_not_bytes_gives(
            seq![ValueView::Bytes(c)],
        ) == Ok::<ValueView, ErrorView>(ValueView::Bytes(b)),
{
    let c = crate::ops::complement(b);
    assert(crate::ops::complement(c) =~= b);
}

/// The bytes of an unsigned integer spell it, most significant byte first, in as many
/// bytes as its type has.
pub proof fn bytes_spell_their_integer(a: u32, b: u64, c: u128)
    ensures
        to_be_bytes_gives(seq![ValueView::U32(a)]) matches Ok(ValueView::Bytes(s)) && s.len() == 4 && be_val(s) == a,
        to_be_bytes_gives(seq![ValueView::U64(b)]) matches Ok(ValueView::Bytes(s)) && s.len() == 8 && be_val(s) == b,
        to_be_bytes_gives(seq![ValueView::U128(c)]) matches Ok(ValueView::Bytes(s)) && s.len() == 16 && be_val(s) == c,
{
    lemma_pow256();
    lemma_be_round_trip(a as nat, 4);
    lemma_be_round_trip(b as nat, 8);
    lemma_be_round_trip(c as nat, 16);
}

/// Joined texts are the first and then the second, and both stand in them; so does
/// every text that stands between two others.
pub proof fn joined_texts_hold_both(a: Seq<char>, b: Seq<char>, c: Seq<char>)
    ensures
        string_concat_gives(seq![ValueView::Str(a), ValueView::Str(b)]) matches Ok(ValueView::Str(t)) && t.len()
            == a.len() + b.len() && (forall|i: int| 0 <= i < a.len() ==> #[trigger] t[i] == a[i]) && (forall|i: int|
            a.len() <= i < t.len() ==> #[trigger] t[i] == b[i - a.len()]),
        string_contains_gives(seq![ValueView::Str(a + b + c), ValueView::Str(b)]) == Ok::<ValueView, ErrorView>(
            ValueView::Bool(true),
        ),
{
    let t = a + b + c;
    assert(t.subrange(a.len() as int, a.len() as int + b.len()) =~= b);
}

/// A text that stands in another is some part of it.
pub proof fn a_contained_text_is_a_part(a: Seq<char>, b: Seq<char>)
    ensures
        string_contains_gives(seq![ValueView::Str(a), ValueView::Str(b)]) == Ok::<ValueView, ErrorView>(
            ValueView::Bool(
                exists|i: int|
                    0 <= i <= a.len() - b.len() && #[trigger] a.subrange(i, i + b.len()) == b,
            ),
        ),
{
}

/// What a member of a set is found by: a value is contained if and only if one of the
/// members equals it.
pub proof fn a_contained_member_is_there(s: Seq<ValueView>, v: ValueView)
    ensures
        set_contains_gives(seq![ValueView::SetOf(s), v]) == Ok::<ValueView, ErrorView>(
            ValueView::Bool(exists|i: int| 0 <= i < s.len() && equal(#[trigger] s[i], v)),
        ),
        set_len_gives(seq![ValueView::SetOf(s)]) == Ok::<ValueView, ErrorView>(ValueView::Int(s.len() as int)),
{
    lemma_member(s, v, 0);
}

proof fn lemma_member(s: Seq<ValueView>, v: ValueView, i: nat)
    ensures
        member_at(s, v, i) is Some <==> exists|j: int| i <= j < s.len() && equal(#[trigger] s[j], v),
    decreases s.len() - i,
{
    if i < s.len() && !equal(s[i as int], v) {
        lemma_member(s, v, i + 1);
        if exists|j: int| i <= j < s.len() && equal(#[trigger] s[j], v) {
            let j = choose|j: int| i <= j < s.len() && equal(#[trigger] s[j], v);
            assert(i + 1 <= j);
        }
    } else if i < s.len() {
        assert(equal(s[i as int], v));
    }
}

/// Removing a member keeps all members that do not equal it, and no others.
pub proof fn removing_a_member_keeps_the_others(s: Seq<ValueView>, v: ValueView, w: ValueView)
    ensures
        set_remove_gives(seq![ValueView::SetOf(s), v]) matches Ok(ValueView::SetOf(t)) && (t.contains(w) <==> s.contains(
            w,
        ) && !equal(w, v)),
{
    lemma_without_member(s, v, w, s.len());
    assert(s.take(s.len() as int) =~= s);
}

proof fn lemma_without_member(s: Seq<ValueView>, v: ValueView, w: ValueView, n: nat)
    requires
        n <= s.len(),
    ensures
        without_member(s, v, n).contains(w) <==> s.take(n as int).contains(w) && !equal(w, v),
    decreases n,
{
    if n > 0 {
        let m = (n - 1) as nat;
        lemma_without_member(s, v, w, m);
        let t = without_member(s, v, m);
        let x = s[n - 1];
        assert(s.take(n as int) =~= s.take(m as int).push(x));
        assert(s.take(m as int).push(x).contains(w) <==> s.take(m as int).contains(w) || w == x) by {
            if s.take(m as int).contains(w) {
                let j = choose|j: int| 0 <= j < m && s.take(m as int)[j] == w;
                assert(s.take(m as int).push(x)[j] == w);
            }
            assert(s.take(m as int).push(x)[m as int] == x);
        }
        assert(t.push(x).contains(w) <==> t.contains(w) || w == x) by {
            if t.contains(w) {
                let j = choose|j: int| 0 <= j < t.len() && t[j] == w;
                assert(t.push(x)[j] == w);
            }
            assert(t.push(x)[t.len() as int] == x);
        }
    }
}

/// A dict has a key if and only if one of its entries is under an equal key; `dict_get`
/// then gives the value of the first such entry, and else the default.
pub proof fn a_dict_gives_the_entry_of_a_key(d: Seq<(ValueView, ValueView)>, k: ValueView, default: ValueView, i: int)
    ensures
        dict_has_gives(seq![ValueView::Dict(d), k]) == Ok::<ValueView, ErrorView>(
            ValueView::Bool(exists|j: int| 0 <= j < d.len() && equal((#[trigger] d[j]).0, k)),
        ),
        0 <= i < d.len() && equal(d[i].0, k) && (forall|j: int| 0 <= j < i ==> !equal((#[trigger] d[j]).0, k))
            ==> dict_get_gives(seq![ValueView::Dict(d), k, default]) == Ok::<ValueView, ErrorView>(d[i].1),
        (forall|j: int| 0 <= j < d.len() ==> !equal((#[trigger] d[j]).0, k)) ==> dict_get_gives(
            seq![ValueView::Dict(d), k, default],
        ) == Ok::<ValueView, ErrorView>(default),
        dict_len_gives(seq![ValueView::Dict(d)]) == Ok::<ValueView, ErrorView>(ValueView::Int(d.len() as int)),
{
    lemma_key(d, k, 0);
}

proof fn lemma_key(s: Seq<(ValueView, ValueView)>, k: ValueView, i: nat)
    ensures
        match key_at(s, k, i) {
            Some(j) => i <= j < s.len() && equal(s[j].0, k) && forall|w: int|
                i <= w < j ==> !equal((#[trigger] s[w]).0, k),
            None => forall|w: int| i <= w < s.len() ==> !equal((#[trigger] s[w]).0, k),
        },
    decreases s.len() - i,
{
    if i < s.len() && !equal(s[i as int].0, k) {
        lemma_key(s, k, i + 1);
    }
}

/// Removing a key takes all its entries out of a dict, and keeps every other entry.
pub proof fn removing_a_key_keeps_the_others(
    d: Seq<(ValueView, ValueView)>,
    k: ValueView,
    default: ValueView,
    e: (ValueView, ValueView),
)
    ensures
        dict_remove_gives(seq![ValueView::Dict(d), k]) matches Ok(ValueView::Dict(t)) && (t.contains(e) <==> d.contains(
            e,
        ) && !equal(e.0, k)) && dict_has_gives(seq![ValueView::Dict(t), k]) == Ok::<ValueView, ErrorView>(
            ValueView::Bool(false),
        ) && dict_get_gives(seq![ValueView::Dict(t), k, default]) == Ok::<ValueView, ErrorView>(default),
{
    let t = without_key(d, k, d.len());
    lemma_without_key(d, k, e, d.len());
    assert(d.take(d.len() as int) =~= d);
    lemma_key(t, k, 0);
    assert forall|j: int| 0 <= j < t.len() implies !equal((#[trigger] t[j]).0, k) by {
        lemma_without_key(d, k, t[j], d.len());
        assert(t.contains(t[j]));
    }
}

proof fn lemma_without_key(s: Seq<(ValueView, ValueView)>, k: ValueView, e: (ValueView, ValueView), n: nat)
    requires
        n <= s.len(),
    ensures
        without_key(s, k, n).contains(e) <==> s.take(n as int).contains(e) && !equal(e.0, k),
    decreases n,
{
    if n > 0 {
        let m = (n - 1) as nat;
        lemma_without_key(s, k, e, m);
        let t = without_key(s, k, m);
        let x = s[n - 1];
        assert(s.take(n as int) =~= s.take(m as int).push(x));
        assert(s.take(m as int).push(x).contains(e) <==> s.take(m as int).contains(e) || e == x) by {
            if s.take(m as int).contains(e) {
                let j = choose|j: int| 0 <= j < m && s.take(m as int)[j] == e;
                assert(s.take(m as int).push(x)[j] == e);
            }
            assert(s.take(m as int).push(x)[m as int] == x);
        }
        assert(t.push(x).contains(e) <==> t.contains(e) || e == x) by {
            if t.contains(e) {
                let j = choose|j: int| 0 <= j < t.len() && t[j] == e;
                assert(t.push(x)[j] == e);
            }
            assert(t.push(x)[t.len() as int] == x);
        }
    }
}

/// An assertion passes if and only if its condition is true, with and without a
/// message.
pub proof fn assertions_pass_on_true(c: bool, msg: Seq<char>)
    ensures
        assert_gives(seq![ValueView::Bool(c)]) is Ok <==> c,
        assert_gives(seq![ValueView::Bool(c), ValueView::Str(msg)]) is Ok <==> c,
{
}

/// What a JSON value holds is read back: an item by its place, `null` where there is
/// none, and texts, booleans and integers as they are.
pub proof fn json_values_are_read_as_they_are(s: Seq<ValueView>, i: u64, t: Seq<char>, n: int, b: bool)
    ensures
        json_get_index_gives(seq![ValueView::Json(JsonView::Array(s)), ValueView::U64(i)]) == Ok::<ValueView, ErrorView>(
            if i < s.len() {
                s[i as int]
            } else {
                null()
            },
        ),
        json_to_string_gives(seq![ValueView::Str(t)]) == Ok::<ValueView, ErrorView>(ValueView::Str(t)),
        json_to_bool_gives(seq![ValueView::Bool(b)]) == Ok::<ValueView, ErrorView>(ValueView::Bool(b)),
        i64::MIN <= n <= i64::MAX <==> json_to_i64_gives(seq![ValueView::Int(n)]) == Ok::<ValueView, ErrorView>(
            ValueView::Int(n),
        ),
        0 <= n <= u64::MAX <==> json_to_u64_gives(seq![ValueView::Int(n)]) == Ok::<ValueView, ErrorView>(
            ValueView::U64(n as u64),
        ),
        json_is_null_gives(seq![null()]) == Ok::<ValueView, ErrorView>(ValueView::Bool(true)),
        json_is_null_gives(seq![ValueView::Json(JsonView::Array(s))]) == Ok::<ValueView, ErrorView>(
            ValueView::Bool(false),
        ),
{
}

/// The functions on arrays are called by their names.
#[verifier::spinoff_prover]
#[verifier::rlimit(40)]
pub proof fn array_functions_have_their_names(args: Seq<ValueView>)
    ensures
        builtin_gives("sum"@, args) == sum_gives(args),
        builtin_gives("max"@, args) == max_gives(args),
        builtin_gives("min"@, args) == min_gives(args),
{
    reveal_strlit("sum");
    reveal_strlit("max");
    reveal_strlit("min");
    assert("sum"@.len() == 3 && "max"@.len() == 3 && "min"@.len() == 3);
    assert("sum"@[0] == 's' && "max"@[0] == 'm' && "min"@[0] == 'm' && "max"@[1] == 'a' && "min"@[1] == 'i');
    reveal_strlit("set_insert");
    reveal_strlit("set_remove");
    reveal_strlit("set_contains");
    reveal_strlit("set_len");
    reveal_strlit("dict_set");
    reveal_strlit("dict_remove");
    reveal_strlit("dict_get");
    reveal_strlit("dict_has");
    reveal_strlit("dict_len");
    reveal_strlit("to_bytes");
    reveal_strlit("string_concat");
    reveal_strlit("string_slice");
    reveal_strlit("string_contains");
    reveal_strlit("bytes_len");
    reveal_strlit("bytes_concat");
    reveal_strlit("bytes_eq");
    reveal_strlit("bytes_slice");
    reveal_strlit("to_be_bytes");
    reveal_strlit("bit_not_bytes");
    reveal_strlit("assert");
}

} // verus!
