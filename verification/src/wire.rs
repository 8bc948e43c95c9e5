//! Values as JSON for the wire.
//!
//! Values are richer than JSON. What has no JSON form of its own is projected:
//! integers too large for a JSON number and bytes become text, structs and enums
//! become objects, and handles of persistent collections become null.

use vstd::prelude::*;
use crate::bigint::{decimal_int, BigInt};
use crate::hexes::{hex_encode, hex_text};
use crate::json::json_text;
use crate::text::{decimal, push_decimal, text};
use crate::value::{field_views, pair_views, value_view, views, Value, ValueView};

verus! {

/// A JSON tree to be sent.
#[derive(Debug)]
pub enum Wire {
    Null,
    Bool(bool),
    Signed(i64),
    Unsigned(u64),
    /// The bit pattern of a 64-bit float.
    Float(u64),
    Text(String),
    List(Vec<Wire>),
    /// The entries in order; of two with one key the later counts.
    Object(Vec<(String, Wire)>),
    /// A tree that is given by its canonical text.
    Canonical(String),
}

/// The model of a [`Wire`].
pub enum WireView {
    Null,
    Bool(bool),
    Signed(i64),
    Unsigned(u64),
    Float(u64),
    Text(Seq<char>),
    List(Seq<WireView>),
    Object(Seq<(Seq<char>, WireView)>),
    Canonical(Seq<char>),
}

pub open spec fn wire_views(s: Seq<Wire>) -> Seq<WireView>
    decreases s,
{
    Seq::new(s.len(), |i: int| if 0 <= i < s.len() { wire_view(s[i]) } else { arbitrary() })
}

pub open spec fn entry_views(s: Seq<(String, Wire)>) -> Seq<(Seq<char>, WireView)>
    decreases s,
{
    Seq::new(
        s.len(),
        |i: int|
            if 0 <= i < s.len() {
                (s[i].0@, wire_view(s[i].1))
            } else {
                arbitrary()
            },
    )
}

pub open spec fn wire_view(w: Wire) -> WireView
    decreases w,
{
    match w {
        Wire::Null => WireView::Null,
        Wire::Bool(b) => WireView::Bool(b),
        Wire::Signed(n) => WireView::Signed(n),
        Wire::Unsigned(n) => WireView::Unsigned(n),
        Wire::Float(n) => WireView::Float(n),
        Wire::Text(s) => WireView::Text(s@),
        Wire::List(v) => WireView::List(wire_views(v@)),
        Wire::Object(v) => WireView::Object(entry_views(v@)),
        Wire::Canonical(s) => WireView::Canonical(s@),
    }
}

impl View for Wire {
    type V = WireView;

    open spec fn view(&self) -> WireView {
        wire_view(*self)
    }
}

/// An integer: a number where it has 64 bits, else its digits.
pub open spec fn int_wire(n: int) -> WireView {
    if i64::MIN <= n <= i64::MAX {
        WireView::Signed(n as i64)
    } else {
        WireView::Text(decimal_int(n))
    }
}

/// An unsigned integer: a number where it has 64 bits, else its digits.
pub open spec fn uint_wire(n: int) -> WireView {
    if 0 <= n <= u64::MAX {
        WireView::Unsigned(n as u64)
    } else {
        WireView::Text(decimal_int(n))
    }
}

pub open spec fn list_wires(s: Seq<ValueView>) -> Seq<WireView>
    decreases s,
{
    Seq::new(s.len(), |i: int| if 0 <= i < s.len() { wire_of(s[i]) } else { arbitrary() })
}

pub open spec fn pair_wires(s: Seq<(ValueView, ValueView)>) -> Seq<WireView>
    decreases s,
{
    Seq::new(
        s.len(),
        |i: int|
            if 0 <= i < s.len() {
                WireView::List(seq![wire_of(s[i].0), wire_of(s[i].1)])
            } else {
                arbitrary()
            },
    )
}

pub open spec fn field_wires(s: Seq<(Seq<char>, ValueView)>) -> Seq<(Seq<char>, WireView)>
    decreases s,
{
    Seq::new(
        s.len(),
        |i: int|
            if 0 <= i < s.len() {
                (s[i].0, wire_of(s[i].1))
            } else {
                arbitrary()
            },
    )
}

/// The JSON tree of a value.
pub open spec fn wire_of(v: ValueView) -> WireView
    decreases v,
{
    match v {
        ValueView::Int(n) => int_wire(n),
        ValueView::UInt(n) => uint_wire(n),
        ValueView::Float(n) => WireView::Float(n),
        ValueView::I32(n) => WireView::Signed(n as i64),
        ValueView::U32(n) => WireView::Unsigned(n as u64),
        ValueView::U64(n) => WireView::Unsigned(n),
        ValueView::U128(n) => WireView::Text(decimal(n as nat)),
        ValueView::Bool(b) => WireView::Bool(b),
        ValueView::Unit => WireView::Null,
        ValueView::Resource(n) => WireView::Signed(n),
        ValueView::Str(s) => WireView::Text(s),
        ValueView::Address(s) => WireView::Text(s),
        ValueView::Bytes(b) => WireView::Text(hex_text(b)),
        ValueView::Array(s) => WireView::List(list_wires(s)),
        ValueView::SetOf(s) => WireView::List(list_wires(s)),
        ValueView::Dict(s) => WireView::List(pair_wires(s)),
        ValueView::Tuple(s) => WireView::List(list_wires(s)),
        ValueView::Struct { name, fields } => WireView::Object(
            seq![("@struct"@, WireView::Text(name))] + field_wires(fields),
        ),
        ValueView::Enum { enum_name, variant, payload } => WireView::Object(
            seq![
                ("@enum"@, WireView::Text(enum_name)),
                ("variant"@, WireView::Text(variant)),
                ("payload"@, WireView::List(list_wires(payload))),
            ],
        ),
        ValueView::Json(j) => WireView::Canonical(json_text(j)),
        ValueView::PMap(_) => WireView::Null,
        ValueView::PBTree(_) => WireView::Null,
        ValueView::PVec { .. } => WireView::Null,
        ValueView::Interface { iface, target_module } => WireView::Object(
            seq![("@iface"@, WireView::Text(iface)), ("target"@, WireView::Text(target_module))],
        ),
    }
}

fn int_to_wire(n: &BigInt) -> (r: Wire)
    ensures
        r@ == int_wire(n@),
{
    match n.to_i64() {
        Some(k) => Wire::Signed(k),
        None => Wire::Text(n.to_string()),
    }
}

fn uint_to_wire(n: &BigInt) -> (r: Wire)
    ensures
        r@ == uint_wire(n@),
{
    match n.to_u64() {
        Some(k) => Wire::Unsigned(k),
        None => Wire::Text(n.to_string()),
    }
}

#[verifier::loop_isolation(false)]
pub fn values_to_json(v: &Vec<Value>) -> (r: Vec<Wire>)
    ensures
        wire_views(r@) == list_wires(views(v@)),
    decreases v,
{
    let mut r: Vec<Wire> = Vec::new();
    let mut i: usize = 0;
    while i < v.len()
        invariant
            i <= v@.len(),
            r@.len() == i,
            forall|j: int| 0 <= j < i ==> wire_view(#[trigger] r@[j]) == wire_of(value_view(v@[j])),
        decreases v@.len() - i,
    {
        r.push(value_to_json(&v[i]));
        i = i + 1;
    }
    assert(wire_views(r@) =~= list_wires(views(v@)));
    r
}

#[verifier::loop_isolation(false)]
fn pairs_to_json(v: &Vec<(Value, Value)>) -> (r: Vec<Wire>)
    ensures
        wire_views(r@) == pair_wires(pair_views(v@)),
    decreases v,
{
    let mut r: Vec<Wire> = Vec::new();
    let mut i: usize = 0;
    while i < v.len()
        invariant
            i <= v@.len(),
            r@.len() == i,
            forall|j: int|
                0 <= j < i ==> wire_view(#[trigger] r@[j]) == WireView::List(
                    seq![wire_of(value_view(v@[j].0)), wire_of(value_view(v@[j].1))],
                ),
        decreases v@.len() - i,
    {
        let mut pair: Vec<Wire> = Vec::new();
        pair.push(value_to_json(&v[i].0));
        pair.push(value_to_json(&v[i].1));
        assert(wire_views(pair@) =~= seq![
            wire_of(value_view(v@[i as int].0)),
            wire_of(value_view(v@[i as int].1)),
        ]);
        r.push(Wire::List(pair));
        i = i + 1;
    }
    assert(wire_views(r@) =~= pair_wires(pair_views(v@)));
    r
}

#[verifier::loop_isolation(false)]
fn fields_to_json(name: &String, v: &Vec<(String, Value)>) -> (r: Vec<(String, Wire)>)
    ensures
        entry_views(r@) == seq![("@struct"@, WireView::Text(name@))] + field_wires(field_views(v@)),
    decreases v,
{
    let mut r: Vec<(String, Wire)> = Vec::new();
    r.push((text("@struct"), Wire::Text(name.clone())));
    let mut i: usize = 0;
    while i < v.len()
        invariant
            i <= v@.len(),
            r@.len() == i + 1,
            r@[0].0@ == "@struct"@,
            wire_view(r@[0].1) == WireView::Text(name@),
            forall|j: int|
                1 <= j < i + 1 ==> (#[trigger] r@[j]).0@ == v@[j - 1].0@ && wire_view(r@[j].1) == wire_of(
                    value_view(v@[j - 1].1),
                ),
        decreases v@.len() - i,
    {
        r.push((v[i].0.clone(), value_to_json(&v[i].1)));
        i = i + 1;
    }
    let ghost want = seq![("@struct"@, WireView::Text(name@))] + field_wires(field_views(v@));
    assert forall|j: int| 0 <= j < want.len() implies #[trigger] entry_views(r@)[j] == want[j] by {
        if j > 0 {
            assert(want[j] == field_wires(field_views(v@))[j - 1]);
        }
    }
    assert(entry_views(r@) =~= want);
    r
}

fn labelled(key: &str, s: &String) -> (r: (String, Wire))
    ensures
        r.0@ == key@,
        wire_view(r.1) == WireView::Text(s@),
{
    (text(key), Wire::Text(s.clone()))
}

/// Projects a value to JSON.
#[verifier::rlimit(30)]
pub fn value_to_json(v: &Value) -> (r: Wire)
    ensures
        wire_view(r) == wire_of(value_view(*v)),
    decreases v,
{
    match v {
        Value::Int(n) => int_to_wire(n),
        Value::UInt(n) => uint_to_wire(n),
        Value::Float(n) => Wire::Float(*n),
        Value::I32(n) => Wire::Signed(*n as i64),
        Value::U32(n) => Wire::Unsigned(*n as u64),
        Value::U64(n) => Wire::Unsigned(*n),
        Value::U128(n) => {
            let mut s = text("");
            push_decimal(&mut s, *n);
            proof {
                reveal_strlit("");
                assert(s@ =~= decimal(*n as nat));
            }
            Wire::Text(s)
        },
        Value::Bool(b) => Wire::Bool(*b),
        Value::Unit => Wire::Null,
        Value::Resource(n) => Wire::Signed(*n),
        Value::Str(s) => Wire::Text(s.clone()),
        Value::Address(s) => Wire::Text(s.clone()),
        Value::Bytes(b) => Wire::Text(hex_encode(b.as_slice())),
        Value::Array(s) => Wire::List(values_to_json(s)),
        Value::SetOf(s) => Wire::List(values_to_json(s)),
        Value::Dict(s) => Wire::List(pairs_to_json(s)),
        Value::Tuple(s) => Wire::List(values_to_json(s)),
        Value::Struct { name, fields } => Wire::Object(fields_to_json(name, fields)),
        Value::Enum { enum_name, variant, payload } => {
            let mut r: Vec<(String, Wire)> = Vec::new();
            r.push(labelled("@enum", enum_name));
            r.push(labelled("variant", variant));
            r.push((text("payload"), Wire::List(values_to_json(payload))));
            assert(entry_views(r@) =~= seq![
                ("@enum"@, WireView::Text(enum_name@)),
                ("variant"@, WireView::Text(variant@)),
                ("payload"@, WireView::List(list_wires(views(payload@)))),
            ]);
            Wire::Object(r)
        },
        Value::Json(j) => Wire::Canonical(j.to_string_canonical()),
        Value::PMap(_) => Wire::Null,
        Value::PBTree(_) => Wire::Null,
        Value::PVec { .. } => Wire::Null,
        Value::Interface { iface, target_module } => {
            let mut r: Vec<(String, Wire)> = Vec::new();
            r.push(labelled("@iface", iface));
            r.push(labelled("target", target_module));
            assert(entry_views(r@) =~= seq![
                ("@iface"@, WireView::Text(iface@)),
                ("target"@, WireView::Text(target_module@)),
            ]);
            Wire::Object(r)
        },
    }
}

} // verus!
