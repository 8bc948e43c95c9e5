//! The wire form of types.

use vstd::prelude::*;
use crate::ast::{
    field_view, group_of, normal_groups, type_view, type_views, variant_view, Form, InterfaceMethodSig, Member,
    Type, TypeView,
};
use crate::bytes::{be_bytes, push_be};
use crate::codec::{
    at, dec_be, decode_err, decode_error, lemma_be_at, lemma_split, Codec, Parsed, lemma_take_stays, stays,
};
use crate::error::Error;
use crate::text::concat_hex;

verus! {

/// The tags of the types without parts.
pub open spec fn leaf_tag(g: u8) -> bool {
    0x01 <= g <= 0x0b || g == 0x1c || g == 0x1d || g == 0x1e
}

/// The tags of the types of one part.
pub open spec fn wrap_tag(g: u8) -> bool {
    g == 0x10 || g == 0x11 || g == 0x18
}

/// The tags of the types of a key and a value.
pub open spec fn pair_tag(g: u8) -> bool {
    g == 0x12 || g == 0x13 || g == 0x17 || g == 0x1b
}

pub open spec fn form_tag(f: Form) -> u8 {
    match f {
        Form::Struct => 0x14,
        Form::Enum => 0x16,
        Form::Cap => 0x19,
        Form::Interface => 0x1a,
    }
}

/// The wire form of a text.
#[verifier::opaque]
pub open spec fn enc_text(s: Seq<char>) -> Seq<u8> {
    String::enc(s)
}

/// Reads a text.
#[verifier::opaque]
pub open spec fn dec_text(b: Seq<u8>, pos: int) -> Parsed<Seq<char>> {
    String::dec(b, pos)
}

#[verifier::opaque]
pub open spec fn fits_text(s: Seq<char>) -> bool {
    String::fits(s)
}

/// The wire form of a length.
#[verifier::opaque]
pub open spec fn enc_len(n: nat) -> Seq<u8> {
    be_bytes(n, 4)
}

/// Reads a length.
#[verifier::opaque]
pub open spec fn dec_len(b: Seq<u8>, pos: int) -> Parsed<nat> {
    dec_be(b, pos, 4)
}

proof fn lemma_text_at(s: Seq<char>, b: Seq<u8>, pos: int)
    requires
        fits_text(s),
        at(b, pos, enc_text(s)),
    ensures
        dec_text(b, pos) == Parsed::Done(s, pos + enc_text(s).len()),
        enc_text(s).len() >= 4,
{
    reveal(fits_text);
    reveal(dec_text);
    reveal(enc_text);
    String::round_trip(s, b, pos);
    crate::bytes::lemma_be_bytes_len(vstd::utf8::encode_utf8(s).len(), 4);
}

proof fn lemma_len_at(n: nat, b: Seq<u8>, pos: int)
    requires
        n < 0x1_0000_0000,
        at(b, pos, enc_len(n)),
    ensures
        dec_len(b, pos) == Parsed::Done(n, pos + 4),
        enc_len(n).len() == 4,
{
    reveal(dec_len);
    reveal(enc_len);
    crate::bytes::lemma_pow256();
    lemma_be_at(n, 4, b, pos);
}

/// The wire form of a type.
pub open spec fn enc_type(t: TypeView) -> Seq<u8>
    decreases t, 0nat,
{
    match t {
        TypeView::Leaf(g) => seq![g],
        TypeView::Wrap(g, e) => seq![g] + enc_type(*e),
        TypeView::Pair(g, k, v) => seq![g] + enc_type(*k) + enc_type(*v),
        TypeView::Tuple(s) => seq![0x15u8] + enc_len(s.len()) + enc_types(s, s.len()),
        TypeView::Named { form, name, owner, members } => seq![form_tag(form)] + enc_text(name) + (
        if form is Cap {
            enc_text(owner)
        } else {
            Seq::empty()
        }) + enc_len(members.len()) + enc_members(form, members, members.len()),
    }
}

/// The wire forms of the first `n` types.
pub open spec fn enc_types(s: Seq<TypeView>, n: nat) -> Seq<u8>
    decreases s, n,
    when n <= s.len()
{
    if n == 0 {
        Seq::empty()
    } else {
        enc_types(s, (n - 1) as nat) + enc_type(s[n - 1])
    }
}

/// The wire form of a member.
pub open spec fn enc_member(form: Form, m: Member) -> Seq<u8>
    decreases m, 0nat,
{
    match form {
        Form::Struct => enc_text(m.name) + enc_types(m.types, m.types.len()) + match m.group {
            Some(g) => seq![1u8] + enc_text(g),
            None => seq![0u8],
        },
        Form::Cap => enc_text(m.name) + enc_types(m.types, m.types.len()),
        Form::Enum => enc_text(m.name) + enc_len(m.types.len()) + enc_types(
            m.types,
            m.types.len(),
        ),
        Form::Interface => enc_text(m.name) + bool::enc(m.is_view) + bool::enc(m.is_pure)
            + enc_len((m.types.len() - 1) as nat) + enc_types(m.types, m.types.len()),
    }
}

/// The wire forms of the first `n` members.
pub open spec fn enc_members(form: Form, s: Seq<Member>, n: nat) -> Seq<u8>
    decreases s, n,
    when n <= s.len()
{
    if n == 0 {
        Seq::empty()
    } else {
        enc_members(form, s, (n - 1) as nat) + enc_member(form, s[n - 1])
    }
}

/// Whether a type has the shape that its tags announce, and lengths that fit.
pub open spec fn fits_type(t: TypeView) -> bool
    decreases t, 0nat,
{
    match t {
        TypeView::Leaf(g) => leaf_tag(g),
        TypeView::Wrap(g, e) => wrap_tag(g) && fits_type(*e),
        TypeView::Pair(g, k, v) => pair_tag(g) && fits_type(*k) && fits_type(*v),
        TypeView::Tuple(s) => s.len() < 0x1_0000_0000 && fits_types(s, s.len()),
        TypeView::Named { form, name, owner, members } => fits_text(name) && fits_text(owner)
            && (form is Cap || owner.len() == 0) && members.len() < 0x1_0000_0000 && fits_members(
            form,
            members,
            members.len(),
        ),
    }
}

pub open spec fn fits_types(s: Seq<TypeView>, n: nat) -> bool
    decreases s, n,
    when n <= s.len()
{
    n > 0 ==> fits_types(s, (n - 1) as nat) && fits_type(s[n - 1])
}

pub open spec fn fits_member(form: Form, m: Member) -> bool
    decreases m, 0nat,
{
    &&& fits_text(m.name)
    &&& m.types.len() < 0x1_0000_0000
    &&& fits_types(m.types, m.types.len())
    &&& form is Struct || form is Cap ==> m.types.len() == 1
    &&& form is Interface ==> m.types.len() >= 1
    &&& match m.group {
        Some(g) => form is Struct && fits_text(g),
        None => true,
    }
    &&& !(form is Interface) ==> !m.is_view && !m.is_pure
}

pub open spec fn fits_members(form: Form, s: Seq<Member>, n: nat) -> bool
    decreases s, n,
    when n <= s.len()
{
    n > 0 ==> fits_members(form, s, (n - 1) as nat) && fits_member(form, s[n - 1])
}

/// The message about a tag that no type has.
pub open spec fn bad_type_tag(g: u8) -> Seq<char> {
    "unknown type tag 0x"@ + crate::text::hex2(g)
}

/// Reads a type.
pub open spec fn dec_type(b: Seq<u8>, pos: int) -> Parsed<TypeView>
    decreases b.len() - pos, 0nat,
{
    match u8::dec(b, pos) {
        Parsed::Fail(m) => Parsed::Fail(m),
        Parsed::Done(g, e) => if pos < 0 {
            arbitrary()
        } else if leaf_tag(g) {
            Parsed::Done(TypeView::Leaf(g), e)
        } else if wrap_tag(g) {
            match dec_type(b, e) {
                Parsed::Fail(m) => Parsed::Fail(m),
                Parsed::Done(t, e2) => Parsed::Done(TypeView::Wrap(g, Box::new(t)), e2),
            }
        } else if pair_tag(g) {
            match dec_type(b, e) {
                Parsed::Fail(m) => Parsed::Fail(m),
                Parsed::Done(k, e2) => if e <= e2 <= b.len() {
                    match dec_type(b, e2) {
                        Parsed::Fail(m) => Parsed::Fail(m),
                        Parsed::Done(v, e3) => Parsed::Done(
                            TypeView::Pair(g, Box::new(k), Box::new(v)),
                            e3,
                        ),
                    }
                } else {
                    arbitrary()
                },
            }
        } else if g == 0x15 {
            match dec_len(b, e) {
                Parsed::Fail(m) => Parsed::Fail(m),
                Parsed::Done(n, e2) => if e <= e2 <= b.len() {
                    match dec_types(b, e2, n) {
                        Parsed::Fail(m) => Parsed::Fail(m),
                        Parsed::Done(s, e3) => Parsed::Done(TypeView::Tuple(s), e3),
                    }
                } else {
                    arbitrary()
                },
            }
        } else if g == 0x14 {
            dec_named(Form::Struct, b, e)
        } else if g == 0x16 {
            dec_named(Form::Enum, b, e)
        } else if g == 0x19 {
            dec_named(Form::Cap, b, e)
        } else if g == 0x1a {
            dec_named(Form::Interface, b, e)
        } else {
            Parsed::Fail(bad_type_tag(g))
        },
    }
}

/// Reads the names and the member count of a named type, then its members.
pub open spec fn dec_named(form: Form, b: Seq<u8>, pos: int) -> Parsed<TypeView>
    decreases b.len() - pos, 1nat,
{
    match dec_header(form, b, pos) {
        Parsed::Fail(m) => Parsed::Fail(m),
        Parsed::Done((name, owner, n), e) => if pos < e <= b.len() {
            match dec_members(form, b, e, n) {
                Parsed::Fail(m) => Parsed::Fail(m),
                Parsed::Done(members, e2) => Parsed::Done(
                    TypeView::Named { form, name, owner, members },
                    e2,
                ),
            }
        } else {
            arbitrary()
        },
    }
}

/// Reads the name, the owner where there is one, and the member count.
pub open spec fn dec_header(form: Form, b: Seq<u8>, pos: int) -> Parsed<(Seq<char>, Seq<char>, nat)> {
    match dec_text(b, pos) {
        Parsed::Fail(m) => Parsed::Fail(m),
        Parsed::Done(name, e) => if form is Cap {
            match dec_text(b, e) {
                Parsed::Fail(m) => Parsed::Fail(m),
                Parsed::Done(owner, e2) => match dec_len(b, e2) {
                    Parsed::Fail(m) => Parsed::Fail(m),
                    Parsed::Done(n, e3) => Parsed::Done((name, owner, n), e3),
                },
            }
        } else {
            match dec_len(b, e) {
                Parsed::Fail(m) => Parsed::Fail(m),
                Parsed::Done(n, e2) => Parsed::Done((name, Seq::empty(), n), e2),
            }
        },
    }
}

/// Reads `n` types.
pub open spec fn dec_types(b: Seq<u8>, pos: int, n: nat) -> Parsed<Seq<TypeView>>
    decreases b.len() - pos, n,
{
    if n == 0 {
        Parsed::Done(Seq::empty(), pos)
    } else {
        match dec_types(b, pos, (n - 1) as nat) {
            Parsed::Fail(m) => Parsed::Fail(m),
            Parsed::Done(s, e) => if pos <= e <= b.len() {
                match dec_type(b, e) {
                    Parsed::Fail(m) => Parsed::Fail(m),
                    Parsed::Done(t, e2) => Parsed::Done(s.push(t), e2),
                }
            } else {
                arbitrary()
            },
        }
    }
}

/// Reads a member.
pub open spec fn dec_member(form: Form, b: Seq<u8>, pos: int) -> Parsed<Member>
    decreases b.len() - pos, 0nat,
{
    match dec_text(b, pos) {
        Parsed::Fail(m) => Parsed::Fail(m),
        Parsed::Done(name, e) => if !(pos < e <= b.len()) {
            arbitrary()
        } else {
            match form {
                Form::Struct => match dec_type(b, e) {
                    Parsed::Fail(m) => Parsed::Fail(m),
                    Parsed::Done(t, e2) => match bool::dec(b, e2) {
                        Parsed::Fail(m) => Parsed::Fail(m),
                        Parsed::Done(has, e3) => if has {
                            match dec_text(b, e3) {
                                Parsed::Fail(m) => Parsed::Fail(m),
                                Parsed::Done(g, e4) => Parsed::Done(field_view(name, t, Some(g)), e4),
                            }
                        } else {
                            Parsed::Done(field_view(name, t, None), e3)
                        },
                    },
                },
                Form::Cap => match dec_type(b, e) {
                    Parsed::Fail(m) => Parsed::Fail(m),
                    Parsed::Done(t, e2) => Parsed::Done(field_view(name, t, None), e2),
                },
                Form::Enum => match dec_len(b, e) {
                    Parsed::Fail(m) => Parsed::Fail(m),
                    Parsed::Done(n, e2) => if e <= e2 <= b.len() {
                        match dec_types(b, e2, n) {
                            Parsed::Fail(m) => Parsed::Fail(m),
                            Parsed::Done(s, e3) => Parsed::Done(variant_view(name, s), e3),
                        }
                    } else {
                        arbitrary()
                    },
                },
                Form::Interface => match <(bool, bool)>::dec(b, e) {
                    Parsed::Fail(m) => Parsed::Fail(m),
                    Parsed::Done((is_view, is_pure), e2) => match dec_len(b, e2) {
                        Parsed::Fail(m) => Parsed::Fail(m),
                        Parsed::Done(n, e3) => if !(e <= e3 <= b.len()) {
                            arbitrary()
                        } else {
                          match dec_types(b, e3, n) {
                            Parsed::Fail(m) => Parsed::Fail(m),
                            Parsed::Done(s, e4) => if e3 <= e4 <= b.len() {
                                match dec_type(b, e4) {
                                    Parsed::Fail(m) => Parsed::Fail(m),
                                    Parsed::Done(t, e5) => Parsed::Done(
                                        Member { name, types: s.push(t), group: None, is_view, is_pure },
                                        e5,
                                    ),
                                }
                            } else {
                                arbitrary()
                            },
                          }
                        },
                    },
                },
            }
        },
    }
}

/// Reads `n` members.
pub open spec fn dec_members(form: Form, b: Seq<u8>, pos: int, n: nat) -> Parsed<Seq<Member>>
    decreases b.len() - pos, n,
{
    if n == 0 {
        Parsed::Done(Seq::empty(), pos)
    } else {
        match dec_members(form, b, pos, (n - 1) as nat) {
            Parsed::Fail(m) => Parsed::Fail(m),
            Parsed::Done(s, e) => if pos <= e <= b.len() {
                match dec_member(form, b, e) {
                    Parsed::Fail(m) => Parsed::Fail(m),
                    Parsed::Done(t, e2) => Parsed::Done(s.push(t), e2),
                }
            } else {
                arbitrary()
            },
        }
    }
}

proof fn lemma_types_fail(b: Seq<u8>, pos: int, i: nat, n: nat)
    requires
        i <= n,
        dec_types(b, pos, i) is Fail,
    ensures
        dec_types(b, pos, n) == dec_types(b, pos, i),
    decreases n,
{
    if i < n {
        lemma_types_fail(b, pos, i, (n - 1) as nat);
    }
}

proof fn lemma_members_fail(form: Form, b: Seq<u8>, pos: int, i: nat, n: nat)
    requires
        i <= n,
        dec_members(form, b, pos, i) is Fail,
    ensures
        dec_members(form, b, pos, n) == dec_members(form, b, pos, i),
    decreases n,
{
    if i < n {
        lemma_members_fail(form, b, pos, i, (n - 1) as nat);
    }
}

proof fn lemma_text_stays(b: Seq<u8>, rest: Seq<u8>, pos: int)
    requires
        0 <= pos <= b.len(),
    ensures
        stays(dec_text(b, pos), dec_text(b + rest, pos), pos, b.len() as int),
        stays(dec_len(b, pos), dec_len(b + rest, pos), pos, b.len() as int),
        dec_text(b, pos) matches Parsed::Done(_, e) ==> pos < e,
{
    reveal(dec_text);
    reveal(dec_len);
    String::reads_no_further(b, rest, pos);
    lemma_take_stays(b, rest, pos, 4);
}

/// What stands behind a type plays no part in what is read of it.
#[verifier::rlimit(30)]
proof fn lemma_type_stays(b: Seq<u8>, rest: Seq<u8>, pos: int)
    requires
        0 <= pos <= b.len(),
    ensures
        stays(dec_type(b, pos), dec_type(b + rest, pos), pos, b.len() as int),
    decreases b.len() - pos, 0nat,
{
    u8::reads_no_further(b, rest, pos);
    match u8::dec(b, pos) {
        Parsed::Fail(_) => {},
        Parsed::Done(g, e) => {
            if leaf_tag(g) {
            } else if wrap_tag(g) {
                lemma_type_stays(b, rest, e);
            } else if pair_tag(g) {
                lemma_type_stays(b, rest, e);
                match dec_type(b, e) {
                    Parsed::Fail(_) => {},
                    Parsed::Done(_, e2) => lemma_type_stays(b, rest, e2),
                }
            } else if g == 0x15 {
                lemma_text_stays(b, rest, e);
                match dec_len(b, e) {
                    Parsed::Fail(_) => {},
                    Parsed::Done(n, e2) => lemma_types_stay(b, rest, e2, n),
                }
            } else if g == 0x14 {
                lemma_named_stays(Form::Struct, b, rest, e);
            } else if g == 0x16 {
                lemma_named_stays(Form::Enum, b, rest, e);
            } else if g == 0x19 {
                lemma_named_stays(Form::Cap, b, rest, e);
            } else if g == 0x1a {
                lemma_named_stays(Form::Interface, b, rest, e);
            }
        },
    }
}

proof fn lemma_types_stay(b: Seq<u8>, rest: Seq<u8>, pos: int, n: nat)
    requires
        0 <= pos <= b.len(),
    ensures
        stays(dec_types(b, pos, n), dec_types(b + rest, pos, n), pos, b.len() as int),
    decreases b.len() - pos, n,
{
    if n > 0 {
        lemma_types_stay(b, rest, pos, (n - 1) as nat);
        match dec_types(b, pos, (n - 1) as nat) {
            Parsed::Fail(_) => {},
            Parsed::Done(_, e) => lemma_type_stays(b, rest, e),
        }
    }
}

proof fn lemma_header_stays(form: Form, b: Seq<u8>, rest: Seq<u8>, pos: int)
    requires
        0 <= pos <= b.len(),
    ensures
        stays(dec_header(form, b, pos), dec_header(form, b + rest, pos), pos, b.len() as int),
        dec_header(form, b, pos) matches Parsed::Done(_, e) ==> pos < e,
{
    lemma_text_stays(b, rest, pos);
    match dec_text(b, pos) {
        Parsed::Fail(_) => {},
        Parsed::Done(_, e) => {
            lemma_text_stays(b, rest, e);
            match dec_text(b, e) {
                Parsed::Fail(_) => {},
                Parsed::Done(_, e2) => lemma_text_stays(b, rest, e2),
            }
        },
    }
}

proof fn lemma_named_stays(form: Form, b: Seq<u8>, rest: Seq<u8>, pos: int)
    requires
        0 <= pos <= b.len(),
    ensures
        stays(dec_named(form, b, pos), dec_named(form, b + rest, pos), pos, b.len() as int),
    decreases b.len() - pos, 1nat,
{
    lemma_header_stays(form, b, rest, pos);
    match dec_header(form, b, pos) {
        Parsed::Fail(_) => {},
        Parsed::Done((_, _, n), e) => lemma_members_stay(form, b, rest, e, n),
    }
}

proof fn lemma_members_stay(form: Form, b: Seq<u8>, rest: Seq<u8>, pos: int, n: nat)
    requires
        0 <= pos <= b.len(),
    ensures
        stays(dec_members(form, b, pos, n), dec_members(form, b + rest, pos, n), pos, b.len() as int),
    decreases b.len() - pos, n,
{
    if n > 0 {
        lemma_members_stay(form, b, rest, pos, (n - 1) as nat);
        match dec_members(form, b, pos, (n - 1) as nat) {
            Parsed::Fail(_) => {},
            Parsed::Done(_, e) => lemma_member_stays(form, b, rest, e),
        }
    }
}

#[verifier::rlimit(30)]
proof fn lemma_member_stays(form: Form, b: Seq<u8>, rest: Seq<u8>, pos: int)
    requires
        0 <= pos <= b.len(),
    ensures
        stays(dec_member(form, b, pos), dec_member(form, b + rest, pos), pos, b.len() as int),
    decreases b.len() - pos, 0nat,
{
    lemma_text_stays(b, rest, pos);
    match dec_text(b, pos) {
        Parsed::Fail(_) => {},
        Parsed::Done(_, e) => match form {
            Form::Struct => {
                lemma_type_stays(b, rest, e);
                match dec_type(b, e) {
                    Parsed::Fail(_) => {},
                    Parsed::Done(_, e2) => {
                        bool::reads_no_further(b, rest, e2);
                        match bool::dec(b, e2) {
                            Parsed::Fail(_) => {},
                            Parsed::Done(_, e3) => lemma_text_stays(b, rest, e3),
                        }
                    },
                }
            },
            Form::Cap => lemma_type_stays(b, rest, e),
            Form::Enum => {
                lemma_text_stays(b, rest, e);
                match dec_len(b, e) {
                    Parsed::Fail(_) => {},
                    Parsed::Done(n, e2) => lemma_types_stay(b, rest, e2, n),
                }
            },
            Form::Interface => {
                <(bool, bool)>::reads_no_further(b, rest, e);
                match <(bool, bool)>::dec(b, e) {
                    Parsed::Fail(_) => {},
                    Parsed::Done(_, e2) => {
                        lemma_text_stays(b, rest, e2);
                        match dec_len(b, e2) {
                            Parsed::Fail(_) => {},
                            Parsed::Done(n, e3) => {
                                lemma_types_stay(b, rest, e3, n);
                                match dec_types(b, e3, n) {
                                    Parsed::Fail(_) => {},
                                    Parsed::Done(_, e4) => lemma_type_stays(b, rest, e4),
                                }
                            },
                        }
                    },
                }
            },
        },
    }
}

/// Reading the wire form of a type gives the type back.
pub proof fn lemma_type_at(t: TypeView, b: Seq<u8>, pos: int)
    requires
        fits_type(t),
        at(b, pos, enc_type(t)),
    ensures
        dec_type(b, pos) == Parsed::Done(t, pos + enc_type(t).len()),
    decreases t, 0nat,
{
    match t {
        TypeView::Leaf(g) => {
            u8::round_trip(g, b, pos);
        },
        TypeView::Wrap(g, e) => {
            lemma_split(b, pos, seq![g], enc_type(*e));
            u8::round_trip(g, b, pos);
            lemma_type_at(*e, b, pos + 1);
        },
        TypeView::Pair(g, k, v) => {
            lemma_split(b, pos, seq![g] + enc_type(*k), enc_type(*v));
            lemma_split(b, pos, seq![g], enc_type(*k));
            u8::round_trip(g, b, pos);
            lemma_type_at(*k, b, pos + 1);
            lemma_type_at(*v, b, pos + 1 + enc_type(*k).len());
        },
        TypeView::Tuple(s) => {
            let g = seq![0x15u8];
            lemma_split(b, pos, g + enc_len(s.len()), enc_types(s, s.len()));
            lemma_split(b, pos, g, enc_len(s.len()));
            u8::round_trip(0x15, b, pos);
            lemma_len_at(s.len(), b, pos + 1);
            lemma_types_at(s, s.len(), b, pos + 5);
            assert(s.take(s.len() as int) =~= s);
        },
        TypeView::Named { form, name, owner, members } => {
            lemma_named_at(form, name, owner, members, b, pos);
        },
    }
}

#[verifier::spinoff_prover]
proof fn lemma_named_at(
    form: Form,
    name: Seq<char>,
    owner: Seq<char>,
    members: Seq<Member>,
    b: Seq<u8>,
    pos: int,
)
    requires
        fits_type(TypeView::Named { form, name, owner, members }),
        at(b, pos, enc_type(TypeView::Named { form, name, owner, members })),
    ensures
        dec_type(b, pos) == Parsed::Done(
            TypeView::Named { form, name, owner, members },
            pos + enc_type(TypeView::Named { form, name, owner, members }).len(),
        ),
    decreases members, members.len() + 1,
{
    let g = seq![form_tag(form)];
    let nm = enc_text(name);
    let ow: Seq<u8> = if form is Cap { enc_text(owner) } else { Seq::empty() };
    let h = enc_len(members.len());
    let x = enc_members(form, members, members.len());
    lemma_split(b, pos, g + nm + ow + h, x);
    lemma_split(b, pos, g + nm + ow, h);
    lemma_split(b, pos, g + nm, ow);
    lemma_split(b, pos, g, nm);
    u8::round_trip(form_tag(form), b, pos);
    lemma_text_at(name, b, pos + 1);
    let e1 = pos + 1 + nm.len();
    if form is Cap {
        lemma_text_at(owner, b, e1);
    } else {
        assert(owner =~= Seq::empty());
    }
    let e2 = e1 + ow.len();
    lemma_len_at(members.len(), b, e2);
    lemma_members_at(form, members, members.len(), b, e2 + 4);
    assert(members.take(members.len() as int) =~= members);
    assert(dec_header(form, b, pos + 1) == Parsed::Done((name, owner, members.len()), e2 + 4));
    assert(dec_named(form, b, pos + 1) == Parsed::Done(
        TypeView::Named { form, name, owner, members },
        e2 + 4 + x.len(),
    ));
}

proof fn lemma_types_at(s: Seq<TypeView>, n: nat, b: Seq<u8>, pos: int)
    requires
        n <= s.len(),
        fits_types(s, n),
        at(b, pos, enc_types(s, n)),
    ensures
        dec_types(b, pos, n) == Parsed::Done(s.take(n as int), pos + enc_types(s, n).len()),
    decreases s, n,
{
    if n > 0 {
        let x = enc_types(s, (n - 1) as nat);
        lemma_split(b, pos, x, enc_type(s[n - 1]));
        lemma_types_at(s, (n - 1) as nat, b, pos);
        lemma_type_at(s[n - 1], b, pos + x.len());
        assert(s.take(n as int) =~= s.take(n - 1).push(s[n - 1]));
    } else {
        assert(s.take(0) =~= Seq::empty());
    }
}

#[verifier::spinoff_prover]
proof fn lemma_struct_member_at(m: Member, b: Seq<u8>, pos: int)
    requires
        fits_member(Form::Struct, m),
        at(b, pos, enc_member(Form::Struct, m)),
    ensures
        dec_member(Form::Struct, b, pos) == Parsed::Done(m, pos + enc_member(Form::Struct, m).len()),
    decreases m, 0nat,
{
    let nm = enc_text(m.name);
    let x = enc_types(m.types, m.types.len());
    let gr: Seq<u8> = match m.group {
        Some(g) => seq![1u8] + enc_text(g),
        None => seq![0u8],
    };
    lemma_split(b, pos, nm + x, gr);
    lemma_split(b, pos, nm, x);
    lemma_text_at(m.name, b, pos);
    reveal_with_fuel(enc_types, 2);
    reveal_with_fuel(fits_types, 2);
    assert(x =~= enc_type(m.types[0]));
    lemma_type_at(m.types[0], b, pos + nm.len());
    let e = pos + nm.len() + x.len();
    match m.group {
        Some(g) => {
            lemma_split(b, e, seq![1u8], enc_text(g));
            bool::round_trip(true, b, e);
            lemma_text_at(g, b, e + 1);
        },
        None => {
            bool::round_trip(false, b, e);
        },
    }
    assert(m.types =~= seq![m.types[0]]);
}

#[verifier::spinoff_prover]
proof fn lemma_cap_member_at(m: Member, b: Seq<u8>, pos: int)
    requires
        fits_member(Form::Cap, m),
        at(b, pos, enc_member(Form::Cap, m)),
    ensures
        dec_member(Form::Cap, b, pos) == Parsed::Done(m, pos + enc_member(Form::Cap, m).len()),
    decreases m, 0nat,
{
    let nm = enc_text(m.name);
    let x = enc_types(m.types, m.types.len());
    lemma_split(b, pos, nm, x);
    lemma_text_at(m.name, b, pos);
    reveal_with_fuel(enc_types, 2);
    reveal_with_fuel(fits_types, 2);
    assert(x =~= enc_type(m.types[0]));
    lemma_type_at(m.types[0], b, pos + nm.len());
    assert(m.types =~= seq![m.types[0]]);
}

#[verifier::spinoff_prover]
proof fn lemma_enum_member_at(m: Member, b: Seq<u8>, pos: int)
    requires
        fits_member(Form::Enum, m),
        at(b, pos, enc_member(Form::Enum, m)),
    ensures
        dec_member(Form::Enum, b, pos) == Parsed::Done(m, pos + enc_member(Form::Enum, m).len()),
    decreases m, 0nat,
{
    let nm = enc_text(m.name);
    let h = enc_len(m.types.len());
    let x = enc_types(m.types, m.types.len());
    lemma_split(b, pos, nm + h, x);
    lemma_split(b, pos, nm, h);
    lemma_text_at(m.name, b, pos);
    lemma_len_at(m.types.len(), b, pos + nm.len());
    lemma_types_at(m.types, m.types.len(), b, pos + nm.len() + 4);
    assert(m.types.take(m.types.len() as int) =~= m.types);
}

#[verifier::spinoff_prover]
proof fn lemma_interface_member_at(m: Member, b: Seq<u8>, pos: int)
    requires
        fits_member(Form::Interface, m),
        at(b, pos, enc_member(Form::Interface, m)),
    ensures
        dec_member(Form::Interface, b, pos) == Parsed::Done(
            m,
            pos + enc_member(Form::Interface, m).len(),
        ),
    decreases m, 0nat,
{
    let n = (m.types.len() - 1) as nat;
    let nm = enc_text(m.name);
    let v = bool::enc(m.is_view);
    let w = bool::enc(m.is_pure);
    let h = enc_len(n);
    let x = enc_types(m.types, m.types.len());
    let y = enc_types(m.types, n);
    let z = enc_type(m.types[n as int]);
    assert(x == y + z);
    lemma_split(b, pos, nm + v + w + h, x);
    lemma_split(b, pos, nm + v + w, h);
    lemma_split(b, pos, nm + v, w);
    lemma_split(b, pos, nm, v);
    lemma_text_at(m.name, b, pos);
    let e = pos + nm.len();
    bool::round_trip(m.is_view, b, e);
    bool::round_trip(m.is_pure, b, e + 1);
    lemma_len_at(n, b, e + 2);
    lemma_split(b, e + 6, y, z);
    lemma_types_at(m.types, n, b, e + 6);
    lemma_type_at(m.types[n as int], b, e + 6 + y.len());
    assert(m.types.take(n as int).push(m.types[n as int]) =~= m.types);
    assert(<(bool, bool)>::dec(b, e) == Parsed::Done((m.is_view, m.is_pure), e + 2));
}

proof fn lemma_member_at(form: Form, m: Member, b: Seq<u8>, pos: int)
    requires
        fits_member(form, m),
        at(b, pos, enc_member(form, m)),
    ensures
        dec_member(form, b, pos) == Parsed::Done(m, pos + enc_member(form, m).len()),
    decreases m, 1nat,
{
    match form {
        Form::Struct => lemma_struct_member_at(m, b, pos),
        Form::Cap => lemma_cap_member_at(m, b, pos),
        Form::Enum => lemma_enum_member_at(m, b, pos),
        Form::Interface => lemma_interface_member_at(m, b, pos),
    }
}

proof fn lemma_members_at(form: Form, s: Seq<Member>, n: nat, b: Seq<u8>, pos: int)
    requires
        n <= s.len(),
        fits_members(form, s, n),
        at(b, pos, enc_members(form, s, n)),
    ensures
        dec_members(form, b, pos, n) == Parsed::Done(
            s.take(n as int),
            pos + enc_members(form, s, n).len(),
        ),
    decreases s, n,
{
    if n > 0 {
        let x = enc_members(form, s, (n - 1) as nat);
        lemma_split(b, pos, x, enc_member(form, s[n - 1]));
        lemma_members_at(form, s, (n - 1) as nat, b, pos);
        lemma_member_at(form, s[n - 1], b, pos + x.len());
        assert(s.take(n as int) =~= s.take(n - 1).push(s[n - 1]));
    } else {
        assert(s.take(0) =~= Seq::empty());
    }
}


/// The outcome of reading a type at `from`, with the position left at `to`.
pub open spec fn got_type(r: Result<Type, Error>, b: Seq<u8>, from: int, to: int) -> bool {
    match dec_type(b, from) {
        Parsed::Done(t, e) => r matches Ok(x) && type_view(x) == t && normal_groups(x) && to == e && from <= e <= b.len(),
        Parsed::Fail(msg) => r matches Err(x) && x@ == decode_error(msg),
    }
}

fn write_text(out: &mut Vec<u8>, s: &String)
    ensures
        final(out)@ == old(out)@ + enc_text(s@),
{
    reveal(enc_text);
    s.write(out);
}

fn write_len(out: &mut Vec<u8>, n: usize)
    ensures
        final(out)@ == old(out)@ + enc_len(n as nat),
{
    reveal(enc_len);
    push_be(out, n as u128, 4);
}

fn read_text(b: &[u8], pos: &mut usize) -> (r: Result<String, Error>)
    requires
        *old(pos) <= b@.len(),
    ensures
        match dec_text(b@, *old(pos) as int) {
            Parsed::Done(t, e) => r matches Ok(x) && x@ == t && *final(pos) == e && *old(pos) < e
                <= b@.len(),
            Parsed::Fail(msg) => r matches Err(x) && x@ == decode_error(msg),
        },
{
    reveal(dec_text);
    String::read(b, pos)
}

fn read_len(b: &[u8], pos: &mut usize) -> (r: Result<u32, Error>)
    requires
        *old(pos) <= b@.len(),
    ensures
        match dec_len(b@, *old(pos) as int) {
            Parsed::Done(n, e) => r matches Ok(x) && x == n && *final(pos) == e && *old(pos) < e
                <= b@.len(),
            Parsed::Fail(msg) => r matches Err(x) && x@ == decode_error(msg),
        },
{
    reveal(dec_len);
    proof {
        crate::bytes::lemma_pow256();
        if *pos + 4 <= b@.len() {
            crate::bytes::lemma_be_val_bound(b@.subrange(*pos as int, *pos + 4));
        }
    }
    u32::read(b, pos)
}

proof fn lemma_one_type(t: TypeView)
    ensures
        enc_types(seq![t], 1) == enc_type(t),
{
    reveal_with_fuel(enc_types, 2);
    assert(enc_types(seq![t], 1) =~= enc_type(t));
}

fn write_group(out: &mut Vec<u8>, groups: &Vec<Option<String>>, i: usize)
    ensures
        final(out)@ == old(out)@ + match group_of(groups@, i as int) {
            Some(g) => seq![1u8] + enc_text(g),
            None => seq![0u8],
        },
{
    if i < groups.len() {
        match &groups[i] {
            Some(g) => {
                out.push(1);
                write_text(out, g);
                assert(out@ =~= old(out)@ + (seq![1u8] + enc_text(g@)));
                return;
            },
            None => {},
        }
    }
    out.push(0);
    assert(out@ =~= old(out)@ + seq![0u8]);
}

#[verifier::loop_isolation(false)]
fn write_types(out: &mut Vec<u8>, v: &Vec<Type>)
    ensures
        final(out)@ == old(out)@ + enc_types(type_views(v@), v@.len()),
    decreases v, 0nat,
{
    let ghost s = type_views(v@);
    let ghost start = out@;
    let mut i: usize = 0;
    assert(out@ =~= start + enc_types(s, 0));
    while i < v.len()
        invariant
            i <= v@.len(),
            out@ == start + enc_types(s, i as nat),
        decreases v@.len() - i,
    {
        write_type(out, &v[i]);
        i = i + 1;
        assert(out@ =~= start + enc_types(s, i as nat));
    }
}

#[verifier::loop_isolation(false)]
fn write_struct(out: &mut Vec<u8>, t: &Type)
    requires
        t is Struct,
    ensures
        final(out)@ == old(out)@ + enc_type(type_view(*t)),
    decreases t, 0nat,
{
    let ghost o = out@;
    let ghost tv = type_view(*t);
    match t {
        Type::Struct { name, fields, field_groups } => {
            out.push(0x14);
            write_text(out, name);
            write_len(out, fields.len());
            let ghost start = out@;
            let ghost ms = tv->members;
            let mut i: usize = 0;
            assert(out@ =~= start + enc_members(Form::Struct, ms, 0));
            while i < fields.len()
                invariant
                    i <= fields@.len(),
                    ms.len() == fields@.len(),
                    out@ == start + enc_members(Form::Struct, ms, i as nat),
                decreases fields@.len() - i,
            {
                let ghost before = out@;
                write_text(out, &fields[i].0);
                write_type(out, &fields[i].1);
                write_group(out, field_groups, i);
                proof {
                    lemma_one_type(type_view(fields@[i as int].1));
                    assert(ms[i as int].types =~= seq![type_view(fields@[i as int].1)]);
                }
                assert(out@ =~= before + enc_member(Form::Struct, ms[i as int]));
                i = i + 1;
                assert(out@ =~= start + enc_members(Form::Struct, ms, i as nat));
            }
        },
        _ => {},
    }
    assert(out@ =~= o + enc_type(tv));
}

#[verifier::loop_isolation(false)]
fn write_enum(out: &mut Vec<u8>, t: &Type)
    requires
        t is Enum,
    ensures
        final(out)@ == old(out)@ + enc_type(type_view(*t)),
    decreases t, 0nat,
{
    let ghost o = out@;
    let ghost tv = type_view(*t);
    match t {
        Type::Enum { name, variants } => {
            out.push(0x16);
            write_text(out, name);
            write_len(out, variants.len());
            let ghost start = out@;
            let ghost ms = tv->members;
            let mut i: usize = 0;
            assert(out@ =~= start + enc_members(Form::Enum, ms, 0));
            while i < variants.len()
                invariant
                    i <= variants@.len(),
                    ms.len() == variants@.len(),
                    out@ == start + enc_members(Form::Enum, ms, i as nat),
                decreases variants@.len() - i,
            {
                let ghost before = out@;
                write_text(out, &variants[i].0);
                write_len(out, variants[i].1.len());
                write_types(out, &variants[i].1);
                assert(out@ =~= before + enc_member(Form::Enum, ms[i as int]));
                i = i + 1;
                assert(out@ =~= start + enc_members(Form::Enum, ms, i as nat));
            }
        },
        _ => {},
    }
    assert(out@ =~= o + enc_type(tv));
}

#[verifier::loop_isolation(false)]
fn write_cap(out: &mut Vec<u8>, t: &Type)
    requires
        t is Cap,
    ensures
        final(out)@ == old(out)@ + enc_type(type_view(*t)),
    decreases t, 0nat,
{
    let ghost o = out@;
    let ghost tv = type_view(*t);
    match t {
        Type::Cap { name, fields, owner_module } => {
            out.push(0x19);
            write_text(out, name);
            write_text(out, owner_module);
            write_len(out, fields.len());
            let ghost start = out@;
            let ghost ms = tv->members;
            let mut i: usize = 0;
            assert(out@ =~= start + enc_members(Form::Cap, ms, 0));
            while i < fields.len()
                invariant
                    i <= fields@.len(),
                    ms.len() == fields@.len(),
                    out@ == start + enc_members(Form::Cap, ms, i as nat),
                decreases fields@.len() - i,
            {
                let ghost before = out@;
                write_text(out, &fields[i].0);
                write_type(out, &fields[i].1);
                proof {
                    lemma_one_type(type_view(fields@[i as int].1));
                    assert(ms[i as int].types =~= seq![type_view(fields@[i as int].1)]);
                }
                assert(out@ =~= before + enc_member(Form::Cap, ms[i as int]));
                i = i + 1;
                assert(out@ =~= start + enc_members(Form::Cap, ms, i as nat));
            }
        },
        _ => {},
    }
    assert(out@ =~= o + enc_type(tv));
}

#[verifier::loop_isolation(false)]
fn write_interface(out: &mut Vec<u8>, t: &Type)
    requires
        t is Interface,
    ensures
        final(out)@ == old(out)@ + enc_type(type_view(*t)),
    decreases t, 0nat,
{
    let ghost o = out@;
    let ghost tv = type_view(*t);
    match t {
        Type::Interface { name, methods } => {
            out.push(0x1a);
            write_text(out, name);
            write_len(out, methods.len());
            let ghost start = out@;
            let ghost ms = tv->members;
            let mut i: usize = 0;
            assert(out@ =~= start + enc_members(Form::Interface, ms, 0));
            while i < methods.len()
                invariant
                    i <= methods@.len(),
                    ms.len() == methods@.len(),
                    out@ == start + enc_members(Form::Interface, ms, i as nat),
                decreases methods@.len() - i,
            {
                let m = &methods[i];
                let ghost before = out@;
                write_text(out, &m.name);
                m.is_view.write(out);
                m.is_pure.write(out);
                write_len(out, m.params.len());
                write_types(out, &m.params);
                write_type(out, &m.return_type);
                proof {
                    let ps = type_views(m.params@);
                    let all = ms[i as int].types;
                    assert(all == ps.push(type_view(m.return_type)));
                    assert(ps =~= all.take(ps.len() as int));
                    lemma_types_prefix(ps, all, ps.len());
                }
                assert(out@ =~= before + enc_member(Form::Interface, ms[i as int]));
                i = i + 1;
                assert(out@ =~= start + enc_members(Form::Interface, ms, i as nat));
            }
        },
        _ => {},
    }
    assert(out@ =~= o + enc_type(tv));
}

/// Appends the wire form of a type.
#[verifier::rlimit(60)]
pub fn write_type(out: &mut Vec<u8>, t: &Type)
    ensures
        final(out)@ == old(out)@ + enc_type(type_view(*t)),
    decreases t, 1nat,
{
    let ghost o = out@;
    let ghost tv = type_view(*t);
    match t {
        Type::Int => out.push(0x01),
        Type::UInt => out.push(0x1d),
        Type::Float => out.push(0x1e),
        Type::I32 => out.push(0x02),
        Type::U32 => out.push(0x03),
        Type::U64 => out.push(0x04),
        Type::U128 => out.push(0x05),
        Type::Bool => out.push(0x06),
        Type::Unit => out.push(0x07),
        Type::Resource => out.push(0x08),
        Type::String => out.push(0x09),
        Type::Address => out.push(0x0a),
        Type::Bytes => out.push(0x0b),
        Type::Json => out.push(0x1c),
        Type::Array(e) => {
            out.push(0x10);
            write_type(out, e);
        },
        Type::SetOf(e) => {
            out.push(0x11);
            write_type(out, e);
        },
        Type::PVec { elem } => {
            out.push(0x18);
            write_type(out, elem);
        },
        Type::Dict { key, value } => {
            out.push(0x12);
            write_type(out, key);
            write_type(out, value);
        },
        Type::MapOf { key, value } => {
            out.push(0x13);
            write_type(out, key);
            write_type(out, value);
        },
        Type::PMap { key, value } => {
            out.push(0x17);
            write_type(out, key);
            write_type(out, value);
        },
        Type::PBTree { key, value } => {
            out.push(0x1b);
            write_type(out, key);
            write_type(out, value);
        },
        Type::Tuple(elems) => {
            out.push(0x15);
            write_len(out, elems.len());
            write_types(out, elems);
        },
        Type::Struct { .. } => write_struct(out, t),
        Type::Enum { .. } => write_enum(out, t),
        Type::Cap { .. } => write_cap(out, t),
        Type::Interface { .. } => write_interface(out, t),
    }
    assert(out@ =~= o + enc_type(tv));
}

proof fn lemma_types_prefix(s: Seq<TypeView>, t: Seq<TypeView>, n: nat)
    requires
        n <= s.len() <= t.len(),
        s == t.take(s.len() as int),
    ensures
        enc_types(s, n) == enc_types(t, n),
    decreases n,
{
    if n > 0 {
        lemma_types_prefix(s, t, (n - 1) as nat);
    }
}

/// Whether every type of a list has its groups in the normal form.
pub open spec fn all_normal(s: Seq<Type>) -> bool {
    forall|i: int| 0 <= i < s.len() ==> normal_groups(#[trigger] s[i])
}

fn read_types(b: &[u8], pos: &mut usize, n: u32) -> (r: Result<Vec<Type>, Error>)
    requires
        *old(pos) <= b@.len(),
    ensures
        match dec_types(b@, *old(pos) as int, n as nat) {
            Parsed::Done(s, e) => r matches Ok(x) && type_views(x@) == s && all_normal(x@) && *final(pos) == e
                && *old(pos) <= e <= b@.len(),
            Parsed::Fail(msg) => r matches Err(x) && x@ == decode_error(msg),
        },
    decreases b@.len() - *old(pos), 1nat,
{
    let ghost p = *pos as int;
    let mut v: Vec<Type> = Vec::new();
    let mut i: u32 = 0;
    assert(type_views(v@) =~= Seq::empty());
    while i < n
        invariant
            i <= n,
            p == *old(pos),
            p <= *pos <= b@.len(),
            dec_types(b@, p, i as nat) == Parsed::Done(type_views(v@), *pos as int),
            all_normal(v@),
        decreases n - i,
    {
        match read_type(b, pos) {
            Ok(t) => {
                let ghost w = type_views(v@);
                v.push(t);
                assert(type_views(v@) =~= w.push(type_view(t)));
                i = i + 1;
            },
            Err(e) => {
                proof {
                    lemma_types_fail(b@, p, (i + 1) as nat, n as nat);
                }
                return Err(e);
            },
        }
    }
    Ok(v)
}

fn read_struct_member(b: &[u8], pos: &mut usize) -> (r: Result<(String, Type, Option<String>), Error>)
    requires
        *old(pos) <= b@.len(),
    ensures
        match dec_member(Form::Struct, b@, *old(pos) as int) {
            Parsed::Done(m, e) => r matches Ok(x) && m == field_view(
                x.0@,
                type_view(x.1),
                match x.2 {
                    Some(g) => Some(g@),
                    None => None,
                },
            ) && normal_groups(x.1) && *final(pos) == e && *old(pos) <= e <= b@.len(),
            Parsed::Fail(msg) => r matches Err(x) && x@ == decode_error(msg),
        },
    decreases b@.len() - *old(pos), 0nat,
{
    let name = match read_text(b, pos) {
        Ok(x) => x,
        Err(e) => return Err(e),
    };
    let ty = match read_type(b, pos) {
        Ok(x) => x,
        Err(e) => return Err(e),
    };
    let has = match bool::read(b, pos) {
        Ok(x) => x,
        Err(e) => return Err(e),
    };
    if has {
        match read_text(b, pos) {
            Ok(g) => Ok((name, ty, Some(g))),
            Err(e) => Err(e),
        }
    } else {
        Ok((name, ty, None))
    }
}

fn read_cap_member(b: &[u8], pos: &mut usize) -> (r: Result<(String, Type), Error>)
    requires
        *old(pos) <= b@.len(),
    ensures
        match dec_member(Form::Cap, b@, *old(pos) as int) {
            Parsed::Done(m, e) => r matches Ok(x) && m == field_view(x.0@, type_view(x.1), None)
                && normal_groups(x.1) && *final(pos) == e && *old(pos) <= e <= b@.len(),
            Parsed::Fail(msg) => r matches Err(x) && x@ == decode_error(msg),
        },
    decreases b@.len() - *old(pos), 0nat,
{
    let name = match read_text(b, pos) {
        Ok(x) => x,
        Err(e) => return Err(e),
    };
    match read_type(b, pos) {
        Ok(ty) => Ok((name, ty)),
        Err(e) => Err(e),
    }
}

fn read_enum_member(b: &[u8], pos: &mut usize) -> (r: Result<(String, Vec<Type>), Error>)
    requires
        *old(pos) <= b@.len(),
    ensures
        match dec_member(Form::Enum, b@, *old(pos) as int) {
            Parsed::Done(m, e) => r matches Ok(x) && m == variant_view(x.0@, type_views(x.1@))
                && all_normal(x.1@) && *final(pos) == e && *old(pos) <= e <= b@.len(),
            Parsed::Fail(msg) => r matches Err(x) && x@ == decode_error(msg),
        },
    decreases b@.len() - *old(pos), 0nat,
{
    let name = match read_text(b, pos) {
        Ok(x) => x,
        Err(e) => return Err(e),
    };
    let n = match read_len(b, pos) {
        Ok(x) => x,
        Err(e) => return Err(e),
    };
    match read_types(b, pos, n) {
        Ok(p) => Ok((name, p)),
        Err(e) => Err(e),
    }
}

/// The member that a method signature stands for.
pub open spec fn sig_view(m: InterfaceMethodSig) -> Member {
    Member {
        name: m.name@,
        types: type_views(m.params@).push(type_view(m.return_type)),
        group: None,
        is_view: m.is_view,
        is_pure: m.is_pure,
    }
}

fn read_interface_member(b: &[u8], pos: &mut usize) -> (r: Result<InterfaceMethodSig, Error>)
    requires
        *old(pos) <= b@.len(),
    ensures
        match dec_member(Form::Interface, b@, *old(pos) as int) {
            Parsed::Done(m, e) => r matches Ok(x) && m == sig_view(x) && all_normal(x.params@) && normal_groups(x.return_type) && *final(pos) == e && *old(pos)
                <= e <= b@.len(),
            Parsed::Fail(msg) => r matches Err(x) && x@ == decode_error(msg),
        },
    decreases b@.len() - *old(pos), 0nat,
{
    let name = match read_text(b, pos) {
        Ok(x) => x,
        Err(e) => return Err(e),
    };
    let (is_view, is_pure) = match <(bool, bool)>::read(b, pos) {
        Ok(x) => x,
        Err(e) => return Err(e),
    };
    let n = match read_len(b, pos) {
        Ok(x) => x,
        Err(e) => return Err(e),
    };
    let params = match read_types(b, pos, n) {
        Ok(p) => p,
        Err(e) => return Err(e),
    };
    match read_type(b, pos) {
        Ok(return_type) => Ok(InterfaceMethodSig { name, params, return_type, is_view, is_pure }),
        Err(e) => Err(e),
    }
}

/// The members of a struct with the given fields and groups.
pub open spec fn struct_members(
    fields: Seq<(String, Type)>,
    groups: Seq<Option<String>>,
) -> Seq<Member> {
    Seq::new(
        fields.len(),
        |i: int| field_view(fields[i].0@, type_view(fields[i].1), group_of(groups, i)),
    )
}

fn all_none(groups: &Vec<Option<String>>) -> (r: bool)
    ensures
        r == (forall|i: int| 0 <= i < groups@.len() ==> #[trigger] groups@[i] is None),
{
    let mut i: usize = 0;
    while i < groups.len()
        invariant
            i <= groups@.len(),
            forall|j: int| 0 <= j < i ==> #[trigger] groups@[j] is None,
        decreases groups@.len() - i,
    {
        match &groups[i] {
            Some(_) => {
                assert(!(groups@[i as int] is None));
                return false;
            },
            None => {},
        }
        i = i + 1;
    }
    true
}

#[verifier::rlimit(30)]
fn read_struct(b: &[u8], pos: &mut usize) -> (r: Result<Type, Error>)
    requires
        *old(pos) <= b@.len(),
    ensures
        match dec_named(Form::Struct, b@, *old(pos) as int) {
            Parsed::Done(t, e) => r matches Ok(x) && type_view(x) == t && normal_groups(x) && *final(pos) == e && *old(pos)
                <= e <= b@.len(),
            Parsed::Fail(msg) => r matches Err(x) && x@ == decode_error(msg),
        },
    decreases b@.len() - *old(pos), 1nat,
{
    let ghost p0 = *pos as int;
    let name = match read_text(b, pos) {
        Ok(x) => x,
        Err(e) => return Err(e),
    };
    let n = match read_len(b, pos) {
        Ok(x) => x,
        Err(e) => return Err(e),
    };
    let ghost p = *pos as int;
    assert(dec_header(Form::Struct, b@, p0) == Parsed::Done((name@, Seq::<char>::empty(), n as nat), p));
    let mut fields: Vec<(String, Type)> = Vec::new();
    let mut groups: Vec<Option<String>> = Vec::new();
    let mut i: u32 = 0;
    assert(struct_members(fields@, groups@) =~= Seq::empty());
    while i < n
        invariant
            i <= n,
            p0 == *old(pos),
            p0 < p <= *pos <= b@.len(),
            fields@.len() == groups@.len(),
            forall|j: int| 0 <= j < fields@.len() ==> normal_groups((#[trigger] fields@[j]).1),
            dec_header(Form::Struct, b@, p0) == Parsed::Done(
                (name@, Seq::<char>::empty(), n as nat),
                p,
            ),
            dec_members(Form::Struct, b@, p, i as nat) == Parsed::Done(
                struct_members(fields@, groups@),
                *pos as int,
            ),
        decreases n - i,
    {
        match read_struct_member(b, pos) {
            Ok((fname, fty, group)) => {
                let ghost w = struct_members(fields@, groups@);
                let ghost fo = fields@;
                let ghost go = groups@;
                fields.push((fname, fty));
                groups.push(group);
                proof {
                    let k = fo.len() as int;
                    assert forall|j: int| 0 <= j < k implies struct_members(fields@, groups@)[j]
                        == w[j] by {
                        assert(groups@[j] == go[j]);
                        assert(fields@[j] == fo[j]);
                    }
                    assert(struct_members(fields@, groups@) =~= w.push(
                        struct_members(fields@, groups@)[k],
                    ));
                }
                i = i + 1;
            },
            Err(e) => {
                proof {
                    lemma_members_fail(Form::Struct, b@, p, (i + 1) as nat, n as nat);
                }
                return Err(e);
            },
        }
    }
    let ghost g0 = groups@;
    let field_groups: Vec<Option<String>> = if all_none(&groups) { Vec::new() } else { groups };
    proof {
        assert(struct_members(fields@, field_groups@) =~= struct_members(fields@, g0)) by {
            assert forall|j: int| 0 <= j < fields@.len() implies group_of(field_groups@, j)
                == group_of(g0, j) by {}
        }
    }
    let r = Type::Struct { name, fields, field_groups };
    assert(type_view(r)->members =~= struct_members(fields@, field_groups@));
    Ok(r)
}

#[verifier::rlimit(30)]
fn read_enum(b: &[u8], pos: &mut usize) -> (r: Result<Type, Error>)
    requires
        *old(pos) <= b@.len(),
    ensures
        match dec_named(Form::Enum, b@, *old(pos) as int) {
            Parsed::Done(t, e) => r matches Ok(x) && type_view(x) == t && normal_groups(x) && *final(pos) == e && *old(pos)
                <= e <= b@.len(),
            Parsed::Fail(msg) => r matches Err(x) && x@ == decode_error(msg),
        },
    decreases b@.len() - *old(pos), 1nat,
{
    let ghost p0 = *pos as int;
    let name = match read_text(b, pos) {
        Ok(x) => x,
        Err(e) => return Err(e),
    };
    let n = match read_len(b, pos) {
        Ok(x) => x,
        Err(e) => return Err(e),
    };
    let ghost p = *pos as int;
    let mut variants: Vec<(String, Vec<Type>)> = Vec::new();
    let mut i: u32 = 0;
    let ghost mut ms: Seq<Member> = Seq::empty();
    assert(dec_header(Form::Enum, b@, p0) == Parsed::Done((name@, Seq::<char>::empty(), n as nat), p));
    while i < n
        invariant
            i <= n,
            p0 == *old(pos),
            p0 < p <= *pos <= b@.len(),
            ms.len() == variants@.len(),
            forall|j: int| 0 <= j < variants@.len() ==> all_normal((#[trigger] variants@[j]).1@),
            forall|j: int|
                0 <= j < ms.len() ==> #[trigger] ms[j] == variant_view(
                    variants@[j].0@,
                    type_views(variants@[j].1@),
                ),
            dec_header(Form::Enum, b@, p0) == Parsed::Done((name@, Seq::<char>::empty(), n as nat), p),
            dec_members(Form::Enum, b@, p, i as nat) == Parsed::Done(ms, *pos as int),
        decreases n - i,
    {
        match read_enum_member(b, pos) {
            Ok(v) => {
                proof {
                    ms = ms.push(variant_view(v.0@, type_views(v.1@)));
                }
                variants.push(v);
                i = i + 1;
            },
            Err(e) => {
                proof {
                    lemma_members_fail(Form::Enum, b@, p, (i + 1) as nat, n as nat);
                }
                return Err(e);
            },
        }
    }
    let r = Type::Enum { name, variants };
    assert(type_view(r)->members =~= ms);
    Ok(r)
}

#[verifier::rlimit(30)]
fn read_cap(b: &[u8], pos: &mut usize) -> (r: Result<Type, Error>)
    requires
        *old(pos) <= b@.len(),
    ensures
        match dec_named(Form::Cap, b@, *old(pos) as int) {
            Parsed::Done(t, e) => r matches Ok(x) && type_view(x) == t && normal_groups(x) && *final(pos) == e && *old(pos)
                <= e <= b@.len(),
            Parsed::Fail(msg) => r matches Err(x) && x@ == decode_error(msg),
        },
    decreases b@.len() - *old(pos), 1nat,
{
    let ghost p0 = *pos as int;
    let name = match read_text(b, pos) {
        Ok(x) => x,
        Err(e) => return Err(e),
    };
    let owner_module = match read_text(b, pos) {
        Ok(x) => x,
        Err(e) => return Err(e),
    };
    let n = match read_len(b, pos) {
        Ok(x) => x,
        Err(e) => return Err(e),
    };
    let ghost p = *pos as int;
    let mut fields: Vec<(String, Type)> = Vec::new();
    let mut i: u32 = 0;
    let ghost mut ms: Seq<Member> = Seq::empty();
    assert(dec_header(Form::Cap, b@, p0) == Parsed::Done((name@, owner_module@, n as nat), p));
    while i < n
        invariant
            i <= n,
            p0 == *old(pos),
            p0 < p <= *pos <= b@.len(),
            ms.len() == fields@.len(),
            forall|j: int| 0 <= j < fields@.len() ==> normal_groups((#[trigger] fields@[j]).1),
            forall|j: int|
                0 <= j < ms.len() ==> #[trigger] ms[j] == field_view(
                    fields@[j].0@,
                    type_view(fields@[j].1),
                    None,
                ),
            dec_header(Form::Cap, b@, p0) == Parsed::Done((name@, owner_module@, n as nat), p),
            dec_members(Form::Cap, b@, p, i as nat) == Parsed::Done(ms, *pos as int),
        decreases n - i,
    {
        match read_cap_member(b, pos) {
            Ok(v) => {
                proof {
                    ms = ms.push(field_view(v.0@, type_view(v.1), None));
                }
                fields.push(v);
                i = i + 1;
            },
            Err(e) => {
                proof {
                    lemma_members_fail(Form::Cap, b@, p, (i + 1) as nat, n as nat);
                }
                return Err(e);
            },
        }
    }
    let r = Type::Cap { name, fields, owner_module };
    assert(type_view(r)->members =~= ms);
    Ok(r)
}

#[verifier::rlimit(30)]
fn read_interface(b: &[u8], pos: &mut usize) -> (r: Result<Type, Error>)
    requires
        *old(pos) <= b@.len(),
    ensures
        match dec_named(Form::Interface, b@, *old(pos) as int) {
            Parsed::Done(t, e) => r matches Ok(x) && type_view(x) == t && normal_groups(x) && *final(pos) == e && *old(pos)
                <= e <= b@.len(),
            Parsed::Fail(msg) => r matches Err(x) && x@ == decode_error(msg),
        },
    decreases b@.len() - *old(pos), 1nat,
{
    let ghost p0 = *pos as int;
    let name = match read_text(b, pos) {
        Ok(x) => x,
        Err(e) => return Err(e),
    };
    let n = match read_len(b, pos) {
        Ok(x) => x,
        Err(e) => return Err(e),
    };
    let ghost p = *pos as int;
    let mut methods: Vec<InterfaceMethodSig> = Vec::new();
    let mut i: u32 = 0;
    let ghost mut ms: Seq<Member> = Seq::empty();
    assert(dec_header(Form::Interface, b@, p0) == Parsed::Done(
        (name@, Seq::<char>::empty(), n as nat),
        p,
    ));
    while i < n
        invariant
            i <= n,
            p0 == *old(pos),
            p0 < p <= *pos <= b@.len(),
            ms.len() == methods@.len(),
            forall|j: int|
                0 <= j < methods@.len() ==> all_normal((#[trigger] methods@[j]).params@) && normal_groups(
                    methods@[j].return_type,
                ),
            forall|j: int| 0 <= j < ms.len() ==> #[trigger] ms[j] == sig_view(methods@[j]),
            dec_header(Form::Interface, b@, p0) == Parsed::Done(
                (name@, Seq::<char>::empty(), n as nat),
                p,
            ),
            dec_members(Form::Interface, b@, p, i as nat) == Parsed::Done(ms, *pos as int),
        decreases n - i,
    {
        match read_interface_member(b, pos) {
            Ok(v) => {
                proof {
                    ms = ms.push(sig_view(v));
                }
                methods.push(v);
                i = i + 1;
            },
            Err(e) => {
                proof {
                    lemma_members_fail(Form::Interface, b@, p, (i + 1) as nat, n as nat);
                }
                return Err(e);
            },
        }
    }
    let r = Type::Interface { name, methods };
    assert(type_view(r)->members =~= ms);
    Ok(r)
}

fn leaf_type(g: u8) -> (r: Option<Type>)
    ensures
        match r {
            Some(t) => leaf_tag(g) && type_view(t) == TypeView::Leaf(g) && normal_groups(t),
            None => !leaf_tag(g),
        },
{
    if g == 0x01 { Some(Type::Int) }
    else if g == 0x02 { Some(Type::I32) }
    else if g == 0x03 { Some(Type::U32) }
    else if g == 0x04 { Some(Type::U64) }
    else if g == 0x05 { Some(Type::U128) }
    else if g == 0x06 { Some(Type::Bool) }
    else if g == 0x07 { Some(Type::Unit) }
    else if g == 0x08 { Some(Type::Resource) }
    else if g == 0x09 { Some(Type::String) }
    else if g == 0x0a { Some(Type::Address) }
    else if g == 0x0b { Some(Type::Bytes) }
    else if g == 0x1c { Some(Type::Json) }
    else if g == 0x1d { Some(Type::UInt) }
    else if g == 0x1e { Some(Type::Float) }
    else { None }
}

fn wrap_type(g: u8, t: Type) -> (r: Type)
    requires
        wrap_tag(g),
        normal_groups(t),
    ensures
        normal_groups(r),
        type_view(r) == TypeView::Wrap(g, Box::new(type_view(t))),
{
    if g == 0x10 {
        Type::Array(Box::new(t))
    } else if g == 0x11 {
        Type::SetOf(Box::new(t))
    } else {
        Type::PVec { elem: Box::new(t) }
    }
}

fn pair_type(g: u8, k: Type, v: Type) -> (r: Type)
    requires
        pair_tag(g),
        normal_groups(k),
        normal_groups(v),
    ensures
        normal_groups(r),
        type_view(r) == TypeView::Pair(g, Box::new(type_view(k)), Box::new(type_view(v))),
{
    let key = Box::new(k);
    let value = Box::new(v);
    if g == 0x12 {
        Type::Dict { key, value }
    } else if g == 0x13 {
        Type::MapOf { key, value }
    } else if g == 0x17 {
        Type::PMap { key, value }
    } else {
        Type::PBTree { key, value }
    }
}

/// Reads a type. Where no field of a struct has a group, the struct that is read has
/// no group list.
pub fn read_type(b: &[u8], pos: &mut usize) -> (r: Result<Type, Error>)
    requires
        *old(pos) <= b@.len(),
    ensures
        got_type(r, b@, *old(pos) as int, *final(pos) as int),
    decreases b@.len() - *old(pos), 0nat,
{
    let g = match u8::read(b, pos) {
        Ok(g) => g,
        Err(e) => return Err(e),
    };
    match leaf_type(g) {
        Some(t) => return Ok(t),
        None => {},
    }
    if g == 0x10 || g == 0x11 || g == 0x18 {
        match read_type(b, pos) {
            Ok(t) => Ok(wrap_type(g, t)),
            Err(e) => Err(e),
        }
    } else if g == 0x12 || g == 0x13 || g == 0x17 || g == 0x1b {
        match read_type(b, pos) {
            Ok(k) => match read_type(b, pos) {
                Ok(v) => Ok(pair_type(g, k, v)),
                Err(e) => Err(e),
            },
            Err(e) => Err(e),
        }
    } else if g == 0x15 {
        match read_len(b, pos) {
            Ok(n) => match read_types(b, pos, n) {
                Ok(s) => Ok(Type::Tuple(s)),
                Err(e) => Err(e),
            },
            Err(e) => Err(e),
        }
    } else if g == 0x14 {
        read_struct(b, pos)
    } else if g == 0x16 {
        read_enum(b, pos)
    } else if g == 0x19 {
        read_cap(b, pos)
    } else if g == 0x1a {
        read_interface(b, pos)
    } else {
        Err(decode_err(concat_hex("unknown type tag 0x", g)))
    }
}

impl Codec for Type {
    type M = TypeView;

    open spec fn model(&self) -> TypeView {
        type_view(*self)
    }

    open spec fn fits(m: TypeView) -> bool {
        fits_type(m)
    }

    open spec fn enc(m: TypeView) -> Seq<u8> {
        enc_type(m)
    }

    open spec fn dec(b: Seq<u8>, pos: int) -> Parsed<TypeView> {
        dec_type(b, pos)
    }

    fn write(&self, out: &mut Vec<u8>) {
        write_type(out, self)
    }

    fn read(b: &[u8], pos: &mut usize) -> (r: Result<Type, Error>) {
        read_type(b, pos)
    }

    proof fn round_trip(m: TypeView, b: Seq<u8>, pos: int) {
        lemma_type_at(m, b, pos);
    }

    proof fn reads_no_further(b: Seq<u8>, rest: Seq<u8>, pos: int) {
        lemma_type_stays(b, rest, pos);
    }
}

} // verus!
