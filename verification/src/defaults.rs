//! The value that a type starts with.

use vstd::prelude::*;
use crate::ast::Type;
use crate::bigint::BigInt;
use crate::text::text;
use crate::value::{Json, JsonView, Value, ValueView, field_views, value_view, views};

verus! {

pub open spec fn default_list(s: Seq<Type>, n: nat) -> Seq<ValueView>
    decreases s, n,
    when n <= s.len()
{
    if n == 0 {
        seq![]
    } else {
        default_list(s, (n - 1) as nat).push(default_value(s[n - 1]))
    }
}

pub open spec fn default_fields(s: Seq<(String, Type)>, n: nat) -> Seq<(Seq<char>, ValueView)>
    decreases s, n,
    when n <= s.len()
{
    if n == 0 {
        seq![]
    } else {
        default_fields(s, (n - 1) as nat).push((s[n - 1].0@, default_value(s[n - 1].1)))
    }
}

/// The value that a state of a type has before anything was stored in it: zero,
/// nothing, or the defaults of its parts. An enum starts with its first variant.
pub open spec fn default_value(t: Type) -> ValueView
    decreases t,
{
    match t {
        Type::Int => ValueView::Int(0),
        Type::UInt => ValueView::UInt(0),
        Type::Float => ValueView::Float(0),
        Type::I32 => ValueView::I32(0),
        Type::U32 => ValueView::U32(0),
        Type::U64 => ValueView::U64(0),
        Type::U128 => ValueView::U128(0),
        Type::Bool => ValueView::Bool(false),
        Type::Unit => ValueView::Unit,
        Type::Resource => ValueView::Resource(0),
        Type::String => ValueView::Str(seq![]),
        Type::Address => ValueView::Address(seq![]),
        Type::Bytes => ValueView::Bytes(seq![]),
        Type::Array(_) => ValueView::Array(seq![]),
        Type::SetOf(_) => ValueView::SetOf(seq![]),
        Type::Dict { key, value } => ValueView::Dict(seq![]),
        Type::MapOf { key, value } => ValueView::Unit,
        Type::PMap { key, value } => ValueView::PMap(0),
        Type::PBTree { key, value } => ValueView::PBTree(0),
        Type::PVec { elem } => ValueView::PVec { len: 0, root: 0 },
        Type::Json => ValueView::Json(JsonView::Null),
        Type::Struct { name, fields, field_groups } => ValueView::Struct {
            name: name@,
            fields: default_fields(fields@, fields@.len()),
        },
        Type::Tuple(elems) => ValueView::Tuple(default_list(elems@, elems@.len())),
        Type::Enum { name, variants } => if variants@.len() > 0 {
            ValueView::Enum {
                enum_name: name@,
                variant: variants@[0].0@,
                payload: default_list(variants@[0].1@, variants@[0].1@.len()),
            }
        } else {
            ValueView::Unit
        },
        Type::Cap { name, fields, owner_module } => ValueView::Struct {
            name: name@,
            fields: default_fields(fields@, fields@.len()),
        },
        Type::Interface { name, methods } => ValueView::Interface {
            iface: name@,
            target_module: seq![],
        },
    }
}

fn empty_text() -> (r: String)
    ensures
        r@ == Seq::<char>::empty(),
{
    proof {
        reveal_strlit("");
    }
    let r = text("");
    assert(r@ =~= seq![]);
    r
}

#[verifier::loop_isolation(false)]
fn make_list(v: &Vec<Type>) -> (r: Vec<Value>)
    ensures
        views(r@) == default_list(v@, v@.len()),
    decreases v,
{
    let mut r: Vec<Value> = Vec::new();
    let mut i: usize = 0;
    assert(views(r@) =~= seq![]);
    while i < v.len()
        invariant
            i <= v@.len(),
            views(r@) == default_list(v@, i as nat),
        decreases v@.len() - i,
    {
        let ghost before = views(r@);
        let x = default_for(&v[i]);
        let ghost xv = value_view(x);
        r.push(x);
        assert(views(r@) =~= before.push(xv));
        i = i + 1;
    }
    r
}

#[verifier::loop_isolation(false)]
fn make_fields(v: &Vec<(String, Type)>) -> (r: Vec<(String, Value)>)
    ensures
        field_views(r@) == default_fields(v@, v@.len()),
    decreases v,
{
    let mut r: Vec<(String, Value)> = Vec::new();
    let mut i: usize = 0;
    assert(field_views(r@) =~= seq![]);
    while i < v.len()
        invariant
            i <= v@.len(),
            field_views(r@) == default_fields(v@, i as nat),
        decreases v@.len() - i,
    {
        let ghost before = field_views(r@);
        let x = default_for(&v[i].1);
        let ghost xv = value_view(x);
        r.push((v[i].0.clone(), x));
        assert(field_views(r@) =~= before.push((v@[i as int].0@, xv)));
        i = i + 1;
    }
    r
}

/// The value that a type starts with.
#[verifier::rlimit(30)]
pub fn default_for(t: &Type) -> (r: Value)
    ensures
        value_view(r) == default_value(*t),
    decreases t,
{
    match t {
        Type::Int => Value::Int(BigInt::from_i64(0)),
        Type::UInt => Value::UInt(BigInt::from_i64(0)),
        Type::Float => Value::Float(0),
        Type::I32 => Value::I32(0),
        Type::U32 => Value::U32(0),
        Type::U64 => Value::U64(0),
        Type::U128 => Value::U128(0),
        Type::Bool => Value::Bool(false),
        Type::Unit => Value::Unit,
        Type::Resource => Value::Resource(0),
        Type::String => Value::Str(empty_text()),
        Type::Address => Value::Address(empty_text()),
        Type::Bytes => {
            let b: Vec<u8> = Vec::new();
            assert(b@ =~= seq![]);
            Value::Bytes(b)
        },
        Type::Array(_) => {
            let v: Vec<Value> = Vec::new();
            assert(views(v@) =~= seq![]);
            Value::Array(v)
        },
        Type::SetOf(_) => {
            let v: Vec<Value> = Vec::new();
            assert(views(v@) =~= seq![]);
            Value::SetOf(v)
        },
        Type::Dict { key: _, value: _ } => {
            let v: Vec<(Value, Value)> = Vec::new();
            assert(crate::value::pair_views(v@) =~= seq![]);
            Value::Dict(v)
        },
        Type::MapOf { key: _, value: _ } => Value::Unit,
        Type::PMap { key: _, value: _ } => Value::PMap(0),
        Type::PBTree { key: _, value: _ } => Value::PBTree(0),
        Type::PVec { elem: _ } => Value::PVec { len: 0, root: 0 },
        Type::Json => Value::Json(Json::Null),
        Type::Struct { name, fields, field_groups: _ } => Value::Struct {
            name: name.clone(),
            fields: make_fields(fields),
        },
        Type::Tuple(elems) => Value::Tuple(make_list(elems)),
        Type::Enum { name, variants } => if variants.len() > 0 {
            Value::Enum {
                enum_name: name.clone(),
                variant: variants[0].0.clone(),
                payload: make_list(&variants[0].1),
            }
        } else {
            Value::Unit
        },
        Type::Cap { name, fields, owner_module: _ } => Value::Struct {
            name: name.clone(),
            fields: make_fields(fields),
        },
        Type::Interface { name, methods: _ } => Value::Interface {
            iface: name.clone(),
            target_module: empty_text(),
        },
    }
}

} // verus!
