//! Run-time values.

use vstd::prelude::*;
use crate::bigint::{BigInt, decimal_int};
use crate::entries::{entries_of, Entries};
use crate::text::{concat2, concat3, concat_num, decimal, same, text};

verus! {

/// A value at run time.
#[derive(Debug)]
pub enum Value {
    Int(BigInt),
    UInt(BigInt),
    /// The bit pattern of a 64-bit float.
    Float(u64),
    I32(i32),
    U32(u32),
    U64(u64),
    U128(u128),
    Bool(bool),
    Unit,
    Resource(i64),
    Str(String),
    Address(String),
    Bytes(Vec<u8>),
    Array(Vec<Value>),
    SetOf(Vec<Value>),
    Dict(Vec<(Value, Value)>),
    Tuple(Vec<Value>),
    Struct { name: String, fields: Vec<(String, Value)> },
    Enum { enum_name: String, variant: String, payload: Vec<Value> },
    Json(Json),
    /// The root of a persistent map.
    PMap(u128),
    /// The root of a persistent ordered map.
    PBTree(u128),
    /// The length and the root of a persistent vector.
    PVec { len: u64, root: u128 },
    /// A module bound to an interface; no name means none is bound.
    Interface { iface: String, target_module: String },
}

/// The shapes that only JSON has. Its numbers, texts and booleans are ordinary
/// values.
#[derive(Debug)]
pub enum Json {
    Null,
    Array(Vec<Value>),
    /// The entries in the order in which their keys first came; no key twice.
    Object(Entries),
}

/// The model of a [`Value`].
pub enum ValueView {
    Int(int),
    UInt(int),
    Float(u64),
    I32(i32),
    U32(u32),
    U64(u64),
    U128(u128),
    Bool(bool),
    Unit,
    Resource(i64),
    Str(Seq<char>),
    Address(Seq<char>),
    Bytes(Seq<u8>),
    Array(Seq<ValueView>),
    SetOf(Seq<ValueView>),
    Dict(Seq<(ValueView, ValueView)>),
    Tuple(Seq<ValueView>),
    Struct { name: Seq<char>, fields: Seq<(Seq<char>, ValueView)> },
    Enum { enum_name: Seq<char>, variant: Seq<char>, payload: Seq<ValueView> },
    Json(JsonView),
    PMap(u128),
    PBTree(u128),
    PVec { len: u64, root: u128 },
    Interface { iface: Seq<char>, target_module: Seq<char> },
}

/// The model of a [`Json`].
pub enum JsonView {
    Null,
    Array(Seq<ValueView>),
    Object(Seq<(Seq<char>, ValueView)>),
}

pub open spec fn views(s: Seq<Value>) -> Seq<ValueView>
    decreases s,
{
    Seq::new(s.len(), |i: int| if 0 <= i < s.len() { value_view(s[i]) } else { arbitrary() })
}

pub open spec fn pair_views(s: Seq<(Value, Value)>) -> Seq<(ValueView, ValueView)>
    decreases s,
{
    Seq::new(
        s.len(),
        |i: int|
            if 0 <= i < s.len() {
                (value_view(s[i].0), value_view(s[i].1))
            } else {
                arbitrary()
            },
    )
}

pub open spec fn field_views(s: Seq<(String, Value)>) -> Seq<(Seq<char>, ValueView)>
    decreases s,
{
    Seq::new(
        s.len(),
        |i: int|
            if 0 <= i < s.len() {
                (s[i].0@, value_view(s[i].1))
            } else {
                arbitrary()
            },
    )
}

pub open spec fn json_view(j: Json) -> JsonView
    decreases j,
{
    match j {
        Json::Null => JsonView::Null,
        Json::Array(v) => JsonView::Array(views(v@)),
        Json::Object(v) => JsonView::Object(entries_of(v)),
    }
}

pub open spec fn value_view(v: Value) -> ValueView
    decreases v,
{
    match v {
        Value::Int(n) => ValueView::Int(n@),
        Value::UInt(n) => ValueView::UInt(n@),
        Value::Float(n) => ValueView::Float(n),
        Value::I32(n) => ValueView::I32(n),
        Value::U32(n) => ValueView::U32(n),
        Value::U64(n) => ValueView::U64(n),
        Value::U128(n) => ValueView::U128(n),
        Value::Bool(b) => ValueView::Bool(b),
        Value::Unit => ValueView::Unit,
        Value::Resource(n) => ValueView::Resource(n),
        Value::Str(s) => ValueView::Str(s@),
        Value::Address(s) => ValueView::Address(s@),
        Value::Bytes(b) => ValueView::Bytes(b@),
        Value::Array(v) => ValueView::Array(views(v@)),
        Value::SetOf(v) => ValueView::SetOf(views(v@)),
        Value::Dict(v) => ValueView::Dict(pair_views(v@)),
        Value::Tuple(v) => ValueView::Tuple(views(v@)),
        Value::Struct { name, fields } => ValueView::Struct {
            name: name@,
            fields: field_views(fields@),
        },
        Value::Enum { enum_name, variant, payload } => ValueView::Enum {
            enum_name: enum_name@,
            variant: variant@,
            payload: views(payload@),
        },
        Value::Json(j) => ValueView::Json(json_view(j)),
        Value::PMap(h) => ValueView::PMap(h),
        Value::PBTree(h) => ValueView::PBTree(h),
        Value::PVec { len, root } => ValueView::PVec { len, root },
        Value::Interface { iface, target_module } => ValueView::Interface {
            iface: iface@,
            target_module: target_module@,
        },
    }
}

impl View for Value {
    type V = ValueView;

    open spec fn view(&self) -> ValueView {
        value_view(*self)
    }
}

impl View for Json {
    type V = JsonView;

    open spec fn view(&self) -> JsonView {
        json_view(*self)
    }
}

/// The first entry with a name, from the `i`-th on.
pub open spec fn field_at(s: Seq<(Seq<char>, ValueView)>, name: Seq<char>, i: nat) -> Option<int>
    decreases s.len() - i,
{
    if i >= s.len() {
        None
    } else if s[i as int].0 == name {
        Some(i as int)
    } else {
        field_at(s, name, i + 1)
    }
}

pub open spec fn equal_lists(a: Seq<ValueView>, b: Seq<ValueView>, n: nat) -> bool
    decreases a, n,
    when n <= a.len()
{
    n == 0 || (equal_lists(a, b, (n - 1) as nat) && equal(a[n - 1], b[n - 1]))
}

pub open spec fn equal_pairs(
    a: Seq<(ValueView, ValueView)>,
    b: Seq<(ValueView, ValueView)>,
    n: nat,
) -> bool
    decreases a, n,
    when n <= a.len()
{
    n == 0 || (equal_pairs(a, b, (n - 1) as nat) && equal(a[n - 1].0, b[n - 1].0) && equal(
        a[n - 1].1,
        b[n - 1].1,
    ))
}

pub open spec fn equal_fields(
    a: Seq<(Seq<char>, ValueView)>,
    b: Seq<(Seq<char>, ValueView)>,
    n: nat,
) -> bool
    decreases a, n,
    when n <= a.len()
{
    n == 0 || (equal_fields(a, b, (n - 1) as nat) && a[n - 1].0 == b[n - 1].0 && equal(
        a[n - 1].1,
        b[n - 1].1,
    ))
}

/// Whether each of the first `n` entries of `a` is in `b`, wherever it stands.
pub open spec fn equal_entries(
    a: Seq<(Seq<char>, ValueView)>,
    b: Seq<(Seq<char>, ValueView)>,
    n: nat,
) -> bool
    decreases a, n,
    when n <= a.len()
{
    n == 0 || (equal_entries(a, b, (n - 1) as nat) && match field_at(b, a[n - 1].0, 0) {
        Some(k) => equal(a[n - 1].1, b[k].1),
        None => false,
    })
}

pub open spec fn equal_json(a: JsonView, b: JsonView) -> bool
    decreases a,
{
    match (a, b) {
        (JsonView::Null, JsonView::Null) => true,
        (JsonView::Array(x), JsonView::Array(y)) => x.len() == y.len() && equal_lists(x, y, x.len()),
        (JsonView::Object(x), JsonView::Object(y)) => x.len() == y.len() && equal_entries(
            x,
            y,
            x.len(),
        ),
        _ => false,
    }
}

/// Whether two values are equal: of one kind, with equal parts in their order.
/// The order of a JSON object's entries does not count.
pub open spec fn equal(a: ValueView, b: ValueView) -> bool
    decreases a,
{
    match (a, b) {
        (ValueView::Array(x), ValueView::Array(y)) => x.len() == y.len() && equal_lists(x, y, x.len()),
        (ValueView::SetOf(x), ValueView::SetOf(y)) => x.len() == y.len() && equal_lists(x, y, x.len()),
        (ValueView::Tuple(x), ValueView::Tuple(y)) => x.len() == y.len() && equal_lists(x, y, x.len()),
        (ValueView::Dict(x), ValueView::Dict(y)) => x.len() == y.len() && equal_pairs(x, y, x.len()),
        (
            ValueView::Struct { name, fields },
            ValueView::Struct { name: name2, fields: fields2 },
        ) => name == name2 && fields.len() == fields2.len() && equal_fields(
            fields,
            fields2,
            fields.len(),
        ),
        (
            ValueView::Enum { enum_name, variant, payload },
            ValueView::Enum { enum_name: enum_name2, variant: variant2, payload: payload2 },
        ) => enum_name == enum_name2 && variant == variant2 && payload.len() == payload2.len()
            && equal_lists(payload, payload2, payload.len()),
        (ValueView::Json(x), ValueView::Json(y)) => equal_json(x, y),
        _ => a == b,
    }
}

#[verifier::loop_isolation(false)]
pub fn copy_values(v: &Vec<Value>) -> (r: Vec<Value>)
    ensures
        views(r@) == views(v@),
        r@.len() == v@.len(),
    decreases weights(views(v@), v@.len()),
{
    let mut r: Vec<Value> = Vec::new();
    let mut i: usize = 0;
    while i < v.len()
        invariant
            i <= v@.len(),
            r@.len() == i,
            forall|j: int| 0 <= j < i ==> value_view(#[trigger] r@[j]) == value_view(v@[j]),
        decreases v@.len() - i,
    {
        proof {
            lemma_weight_at(views(v@), v@.len(), i as int);
        }
        r.push(v[i].copy());
        i = i + 1;
    }
    assert(views(r@) =~= views(v@));
    r
}

#[verifier::loop_isolation(false)]
pub fn copy_pairs(v: &Vec<(Value, Value)>) -> (r: Vec<(Value, Value)>)
    ensures
        pair_views(r@) == pair_views(v@),
    decreases pair_weights(pair_views(v@), v@.len()),
{
    let mut r: Vec<(Value, Value)> = Vec::new();
    let mut i: usize = 0;
    while i < v.len()
        invariant
            i <= v@.len(),
            r@.len() == i,
            forall|j: int|
                0 <= j < i ==> value_view((#[trigger] r@[j]).0) == value_view(v@[j].0) && value_view(
                    r@[j].1,
                ) == value_view(v@[j].1),
        decreases v@.len() - i,
    {
        proof {
            lemma_pair_weight_at(pair_views(v@), v@.len(), i as int);
        }
        r.push((v[i].0.copy(), v[i].1.copy()));
        i = i + 1;
    }
    assert(pair_views(r@) =~= pair_views(v@));
    r
}

#[verifier::loop_isolation(false)]
pub fn copy_entries(v: &Vec<(String, Value)>) -> (r: Vec<(String, Value)>)
    ensures
        field_views(r@) == field_views(v@),
    decreases field_weights(field_views(v@), v@.len()),
{
    let mut r: Vec<(String, Value)> = Vec::new();
    let mut i: usize = 0;
    while i < v.len()
        invariant
            i <= v@.len(),
            r@.len() == i,
            forall|j: int|
                0 <= j < i ==> (#[trigger] r@[j]).0@ == v@[j].0@ && value_view(r@[j].1) == value_view(
                    v@[j].1,
                ),
        decreases v@.len() - i,
    {
        proof {
            lemma_field_weight_at(field_views(v@), v@.len(), i as int);
        }
        r.push((v[i].0.clone(), v[i].1.copy()));
        i = i + 1;
    }
    assert(field_views(r@) =~= field_views(v@));
    r
}

/// How much the first `n` values weigh.
pub open spec fn weights(s: Seq<ValueView>, n: nat) -> nat
    decreases s, n,
    when n <= s.len()
{
    if n == 0 {
        0
    } else {
        weights(s, (n - 1) as nat) + weight(s[n - 1]) + 1
    }
}

/// How much the first `n` pairs weigh.
pub open spec fn pair_weights(s: Seq<(ValueView, ValueView)>, n: nat) -> nat
    decreases s, n,
    when n <= s.len()
{
    if n == 0 {
        0
    } else {
        pair_weights(s, (n - 1) as nat) + weight(s[n - 1].0) + weight(s[n - 1].1) + 1
    }
}

/// How much the first `n` entries weigh.
pub open spec fn field_weights(s: Seq<(Seq<char>, ValueView)>, n: nat) -> nat
    decreases s, n,
    when n <= s.len()
{
    if n == 0 {
        0
    } else {
        field_weights(s, (n - 1) as nat) + weight(s[n - 1].1) + 1
    }
}

pub open spec fn json_weight(j: JsonView) -> nat
    decreases j,
{
    match j {
        JsonView::Null => 0,
        JsonView::Array(s) => 1 + weights(s, s.len()),
        JsonView::Object(s) => 1 + field_weights(s, s.len()),
    }
}

/// A number above those of all parts of a value.
pub open spec fn weight(v: ValueView) -> nat
    decreases v,
{
    match v {
        ValueView::Array(s) => 1 + weights(s, s.len()),
        ValueView::SetOf(s) => 1 + weights(s, s.len()),
        ValueView::Dict(s) => 1 + pair_weights(s, s.len()),
        ValueView::Tuple(s) => 1 + weights(s, s.len()),
        ValueView::Struct { name, fields } => 1 + field_weights(fields, fields.len()),
        ValueView::Enum { enum_name, variant, payload } => 1 + weights(payload, payload.len()),
        ValueView::Json(j) => 1 + json_weight(j),
        _ => 0,
    }
}

pub proof fn lemma_weight_at(s: Seq<ValueView>, n: nat, i: int)
    requires
        0 <= i < n <= s.len(),
    ensures
        weight(s[i]) < weights(s, n),
    decreases n,
{
    if i < n - 1 {
        lemma_weight_at(s, (n - 1) as nat, i);
    }
}

proof fn lemma_pair_weight_at(s: Seq<(ValueView, ValueView)>, n: nat, i: int)
    requires
        0 <= i < n <= s.len(),
    ensures
        weight(s[i].0) < pair_weights(s, n),
        weight(s[i].1) < pair_weights(s, n),
    decreases n,
{
    if i < n - 1 {
        lemma_pair_weight_at(s, (n - 1) as nat, i);
    }
}

pub proof fn lemma_field_weight_at(s: Seq<(Seq<char>, ValueView)>, n: nat, i: int)
    requires
        0 <= i < n <= s.len(),
    ensures
        weight(s[i].1) < field_weights(s, n),
    decreases n,
{
    if i < n - 1 {
        lemma_field_weight_at(s, (n - 1) as nat, i);
    }
}

/// What is first found from the `i`-th entry on, or that nothing is.
pub proof fn lemma_field_at_range(s: Seq<(Seq<char>, ValueView)>, key: Seq<char>, i: nat)
    ensures
        match field_at(s, key, i) {
            Some(k) => i <= k < s.len()
                && s[k].0 == key
                && forall|j: int| i <= j < k ==> (#[trigger] s[j]).0 != key,
            None => forall|k: int| i <= k < s.len() ==> (#[trigger] s[k]).0 != key,
        },
    decreases s.len() - i,
{
    if i < s.len() && s[i as int].0 != key {
        lemma_field_at_range(s, key, i + 1);
    }
}

#[verifier::loop_isolation(false)]
fn copy_object(e: &Entries) -> (r: Entries)
    ensures
        entries_of(r) == entries_of(*e),
    decreases field_weights(entries_of(*e), entries_of(*e).len()),
{
    let ghost s = entries_of(*e);
    let mut r = Entries::new();
    let n: usize = e.len();
    let mut i: usize = 0;
    assert(s.take(0) =~= seq![]);
    while i < n
        invariant
            i <= n == s.len(),
            entries_of(r) == s.take(i as int),
        decreases n - i,
    {
        match e.at(i) {
            Some((k, v)) => {
                let ghost key = k@;
                let ghost w = value_view(*v);
                proof {
                    lemma_field_weight_at(s, s.len(), i as int);
                }
                r.insert(k.clone(), v.copy());
                proof {
                    lemma_field_at_range(s, key, 0);
                    lemma_field_at_range(s.take(i as int), key, 0);
                    assert(crate::json::put(s.take(i as int), key, w) == s.take(i as int).push((key, w)));
                    assert(s.take(i as int).push(s[i as int]) =~= s.take(i as int + 1));
                }
            },
            None => {},
        }
        i = i + 1;
    }
    assert(s.take(n as int) =~= s);
    r
}

fn copy_bytes(v: &Vec<u8>) -> (r: Vec<u8>)
    ensures
        r@ == v@,
{
    let mut r: Vec<u8> = Vec::new();
    crate::bytes::push_all(&mut r, v.as_slice());
    assert(r@ =~= v@);
    r
}

#[verifier::loop_isolation(false)]
fn same_values(a: &Vec<Value>, b: &Vec<Value>) -> (r: bool)
    ensures
        r == (a@.len() == b@.len() && equal_lists(views(a@), views(b@), a@.len())),
    decreases weights(views(a@), a@.len()),
{
    if a.len() != b.len() {
        return false;
    }
    let ghost x = views(a@);
    let ghost y = views(b@);
    let mut i: usize = 0;
    while i < a.len()
        invariant
            i <= a@.len(),
            equal_lists(x, y, i as nat),
        decreases a@.len() - i,
    {
        proof {
            lemma_weight_at(x, x.len(), i as int);
        }
        if !a[i].same(&b[i]) {
            proof {
                assert(!equal(x[i as int], y[i as int]));
                assert(!equal_lists(x, y, i as nat + 1));
                lemma_unequal_lists(x, y, i as nat + 1, x.len());
            }
            return false;
        }
        assert(equal(x[i as int], y[i as int]));
        i = i + 1;
    }
    true
}

proof fn lemma_unequal_lists(a: Seq<ValueView>, b: Seq<ValueView>, n: nat, m: nat)
    requires
        n <= m <= a.len(),
        !equal_lists(a, b, n),
    ensures
        !equal_lists(a, b, m),
    decreases m,
{
    if n < m {
        lemma_unequal_lists(a, b, n, (m - 1) as nat);
    }
}

#[verifier::loop_isolation(false)]
fn same_pairs(a: &Vec<(Value, Value)>, b: &Vec<(Value, Value)>) -> (r: bool)
    ensures
        r == (a@.len() == b@.len() && equal_pairs(pair_views(a@), pair_views(b@), a@.len())),
    decreases pair_weights(pair_views(a@), a@.len()),
{
    if a.len() != b.len() {
        return false;
    }
    let ghost x = pair_views(a@);
    let ghost y = pair_views(b@);
    let mut i: usize = 0;
    while i < a.len()
        invariant
            i <= a@.len(),
            equal_pairs(x, y, i as nat),
        decreases a@.len() - i,
    {
        proof {
            lemma_pair_weight_at(x, x.len(), i as int);
        }
        if !a[i].0.same(&b[i].0) || !a[i].1.same(&b[i].1) {
            proof {
                assert(!equal(x[i as int].0, y[i as int].0) || !equal(x[i as int].1, y[i as int].1));
                assert(!equal_pairs(x, y, i as nat + 1));
                lemma_unequal_pairs(x, y, i as nat + 1, x.len());
            }
            return false;
        }
        assert(equal(x[i as int].0, y[i as int].0) && equal(x[i as int].1, y[i as int].1));
        i = i + 1;
    }
    true
}

proof fn lemma_unequal_pairs(
    a: Seq<(ValueView, ValueView)>,
    b: Seq<(ValueView, ValueView)>,
    n: nat,
    m: nat,
)
    requires
        n <= m <= a.len(),
        !equal_pairs(a, b, n),
    ensures
        !equal_pairs(a, b, m),
    decreases m,
{
    if n < m {
        lemma_unequal_pairs(a, b, n, (m - 1) as nat);
    }
}

#[verifier::loop_isolation(false)]
fn same_fields(a: &Vec<(String, Value)>, b: &Vec<(String, Value)>) -> (r: bool)
    ensures
        r == (a@.len() == b@.len() && equal_fields(field_views(a@), field_views(b@), a@.len())),
    decreases field_weights(field_views(a@), a@.len()),
{
    if a.len() != b.len() {
        return false;
    }
    let ghost x = field_views(a@);
    let ghost y = field_views(b@);
    let mut i: usize = 0;
    while i < a.len()
        invariant
            i <= a@.len(),
            equal_fields(x, y, i as nat),
        decreases a@.len() - i,
    {
        proof {
            lemma_field_weight_at(x, x.len(), i as int);
        }
        if !same(a[i].0.as_str(), b[i].0.as_str()) || !a[i].1.same(&b[i].1) {
            proof {
                assert(x[i as int].0 != y[i as int].0 || !equal(x[i as int].1, y[i as int].1));
                assert(!equal_fields(x, y, i as nat + 1));
                lemma_unequal_fields(x, y, i as nat + 1, x.len());
            }
            return false;
        }
        assert(x[i as int].0 == y[i as int].0 && equal(x[i as int].1, y[i as int].1));
        i = i + 1;
    }
    true
}

proof fn lemma_unequal_fields(
    a: Seq<(Seq<char>, ValueView)>,
    b: Seq<(Seq<char>, ValueView)>,
    n: nat,
    m: nat,
)
    requires
        n <= m <= a.len(),
        !equal_fields(a, b, n),
    ensures
        !equal_fields(a, b, m),
    decreases m,
{
    if n < m {
        lemma_unequal_fields(a, b, n, (m - 1) as nat);
    }
}

/// The first entry with a name.
pub fn find_field(v: &Vec<(String, Value)>, name: &str) -> (r: Option<usize>)
    ensures
        match r {
            Some(k) => field_at(field_views(v@), name@, 0) == Some(k as int) && k < v@.len(),
            None => field_at(field_views(v@), name@, 0) is None,
        },
{
    let mut i: usize = 0;
    while i < v.len()
        invariant
            i <= v@.len(),
            field_at(field_views(v@), name@, 0) == field_at(field_views(v@), name@, i as nat),
        decreases v@.len() - i,
    {
        if same(v[i].0.as_str(), name) {
            return Some(i);
        }
        i = i + 1;
    }
    None
}

#[verifier::loop_isolation(false)]
fn same_entries(a: &Entries, b: &Entries) -> (r: bool)
    ensures
        r == (entries_of(*a).len() == entries_of(*b).len() && equal_entries(
            entries_of(*a),
            entries_of(*b),
            entries_of(*a).len(),
        )),
    decreases field_weights(entries_of(*a), entries_of(*a).len()),
{
    let n: usize = a.len();
    if n != b.len() {
        return false;
    }
    let ghost x = entries_of(*a);
    let ghost y = entries_of(*b);
    let mut i: usize = 0;
    while i < n
        invariant
            i <= n == x.len(),
            equal_entries(x, y, i as nat),
        decreases n - i,
    {
        proof {
            lemma_field_weight_at(x, x.len(), i as int);
        }
        let hit = match a.at(i) {
            Some((k, v)) => match b.get(k.as_str()) {
                Some(w) => {
                    let r = v.same(w);
                    assert(r == equal(x[i as int].1, value_view(*w)));
                    r
                },
                None => false,
            },
            None => false,
        };
        if !hit {
            proof {
                assert(!equal_entries(x, y, i as nat + 1));
                lemma_unequal_entries(x, y, i as nat + 1, x.len());
            }
            return false;
        }
        i = i + 1;
    }
    true
}

proof fn lemma_unequal_entries(
    a: Seq<(Seq<char>, ValueView)>,
    b: Seq<(Seq<char>, ValueView)>,
    n: nat,
    m: nat,
)
    requires
        n <= m <= a.len(),
        !equal_entries(a, b, n),
    ensures
        !equal_entries(a, b, m),
    decreases m,
{
    if n < m {
        lemma_unequal_entries(a, b, n, (m - 1) as nat);
    }
}

fn same_bytes(a: &Vec<u8>, b: &Vec<u8>) -> (r: bool)
    ensures
        r == (a@ == b@),
{
    if a.len() != b.len() {
        return false;
    }
    let mut i: usize = 0;
    while i < a.len()
        invariant
            i <= a@.len() == b@.len(),
            forall|j: int| 0 <= j < i ==> #[trigger] a@[j] == b@[j],
        decreases a@.len() - i,
    {
        if a[i] != b[i] {
            return false;
        }
        i = i + 1;
    }
    assert(a@ =~= b@);
    true
}

impl Json {
    /// A copy.
    pub fn copy(&self) -> (r: Json)
        ensures
            r@ == self@,
        decreases json_weight(json_view(*self)),
    {
        match self {
            Json::Null => Json::Null,
            Json::Array(v) => Json::Array(copy_values(v)),
            Json::Object(v) => Json::Object(copy_object(v)),
        }
    }

    fn same(&self, other: &Json) -> (r: bool)
        ensures
            r == equal_json(self@, other@),
        decreases json_weight(json_view(*self)),
    {
        match (self, other) {
            (Json::Null, Json::Null) => true,
            (Json::Array(x), Json::Array(y)) => same_values(x, y),
            (Json::Object(x), Json::Object(y)) => same_entries(x, y),
            _ => false,
        }
    }
}

impl Value {
    /// An `int`.
    pub fn of_int(n: i64) -> (r: Value)
        ensures
            r@ == ValueView::Int(n as int),
    {
        Value::Int(BigInt::from_i64(n))
    }

    /// A copy.
    pub fn copy(&self) -> (r: Value)
        ensures
            value_view(r) == value_view(*self),
        decreases weight(value_view(*self)),
    {
        match self {
            Value::Int(n) => Value::Int(n.copy()),
            Value::UInt(n) => Value::UInt(n.copy()),
            Value::Float(n) => Value::Float(*n),
            Value::I32(n) => Value::I32(*n),
            Value::U32(n) => Value::U32(*n),
            Value::U64(n) => Value::U64(*n),
            Value::U128(n) => Value::U128(*n),
            Value::Bool(b) => Value::Bool(*b),
            Value::Unit => Value::Unit,
            Value::Resource(n) => Value::Resource(*n),
            Value::Str(s) => Value::Str(s.clone()),
            Value::Address(s) => Value::Address(s.clone()),
            Value::Bytes(b) => Value::Bytes(copy_bytes(b)),
            Value::Array(v) => Value::Array(copy_values(v)),
            Value::SetOf(v) => Value::SetOf(copy_values(v)),
            Value::Dict(v) => Value::Dict(copy_pairs(v)),
            Value::Tuple(v) => Value::Tuple(copy_values(v)),
            Value::Struct { name, fields } => Value::Struct {
                name: name.clone(),
                fields: copy_entries(fields),
            },
            Value::Enum { enum_name, variant, payload } => Value::Enum {
                enum_name: enum_name.clone(),
                variant: variant.clone(),
                payload: copy_values(payload),
            },
            Value::Json(j) => Value::Json(j.copy()),
            Value::PMap(h) => Value::PMap(*h),
            Value::PBTree(h) => Value::PBTree(*h),
            Value::PVec { len, root } => Value::PVec { len: *len, root: *root },
            Value::Interface { iface, target_module } => Value::Interface {
                iface: iface.clone(),
                target_module: target_module.clone(),
            },
        }
    }

    /// Whether two values are equal.
    pub fn same(&self, other: &Value) -> (r: bool)
        ensures
            r == equal(value_view(*self), value_view(*other)),
        decreases weight(value_view(*self)),
    {
        match (self, other) {
            (Value::Int(x), Value::Int(y)) => x.same(y),
            (Value::UInt(x), Value::UInt(y)) => x.same(y),
            (Value::Float(x), Value::Float(y)) => *x == *y,
            (Value::I32(x), Value::I32(y)) => *x == *y,
            (Value::U32(x), Value::U32(y)) => *x == *y,
            (Value::U64(x), Value::U64(y)) => *x == *y,
            (Value::U128(x), Value::U128(y)) => *x == *y,
            (Value::Bool(x), Value::Bool(y)) => *x == *y,
            (Value::Unit, Value::Unit) => true,
            (Value::Resource(x), Value::Resource(y)) => *x == *y,
            (Value::Str(x), Value::Str(y)) => same(x.as_str(), y.as_str()),
            (Value::Address(x), Value::Address(y)) => same(x.as_str(), y.as_str()),
            (Value::Bytes(x), Value::Bytes(y)) => same_bytes(x, y),
            (Value::Array(x), Value::Array(y)) => same_values(x, y),
            (Value::SetOf(x), Value::SetOf(y)) => same_values(x, y),
            (Value::Dict(x), Value::Dict(y)) => same_pairs(x, y),
            (Value::Tuple(x), Value::Tuple(y)) => same_values(x, y),
            (Value::Struct { name, fields }, Value::Struct { name: name2, fields: fields2 }) => same(
                name.as_str(),
                name2.as_str(),
            ) && same_fields(fields, fields2),
            (
                Value::Enum { enum_name, variant, payload },
                Value::Enum { enum_name: enum_name2, variant: variant2, payload: payload2 },
            ) => same(enum_name.as_str(), enum_name2.as_str()) && same(
                variant.as_str(),
                variant2.as_str(),
            ) && same_values(payload, payload2),
            (Value::Json(x), Value::Json(y)) => x.same(y),
            (Value::PMap(x), Value::PMap(y)) => *x == *y,
            (Value::PBTree(x), Value::PBTree(y)) => *x == *y,
            (Value::PVec { len, root }, Value::PVec { len: len2, root: root2 }) => *len == *len2
                && *root == *root2,
            (
                Value::Interface { iface, target_module },
                Value::Interface { iface: iface2, target_module: target_module2 },
            ) => same(iface.as_str(), iface2.as_str()) && same(
                target_module.as_str(),
                target_module2.as_str(),
            ),
            _ => false,
        }
    }
}

/// A short text for a value, for messages: scalars by their text, the rest by
/// their kind and size.
pub open spec fn shown(v: ValueView) -> Seq<char> {
    match v {
        ValueView::Int(n) => decimal_int(n),
        ValueView::UInt(n) => decimal_int(n),
        ValueView::Float(_) => "float"@,
        ValueView::I32(n) => decimal_int(n as int),
        ValueView::U32(n) => decimal(n as nat),
        ValueView::U64(n) => decimal(n as nat),
        ValueView::U128(n) => decimal(n as nat),
        ValueView::Bool(b) => if b {
            "true"@
        } else {
            "false"@
        },
        ValueView::Unit => "()"@,
        ValueView::Resource(n) => "resource("@ + decimal_int(n as int) + ")"@,
        ValueView::Str(s) => s,
        ValueView::Address(s) => "@"@ + s,
        ValueView::Bytes(b) => "bytes of length "@ + decimal(b.len()),
        ValueView::Array(s) => "array of length "@ + decimal(s.len()),
        ValueView::SetOf(s) => "set of size "@ + decimal(s.len()),
        ValueView::Dict(s) => "dict of size "@ + decimal(s.len()),
        ValueView::Tuple(s) => "tuple of length "@ + decimal(s.len()),
        ValueView::Struct { name, fields } => "struct "@ + name,
        ValueView::Enum { enum_name, variant, payload } => enum_name + "::"@ + variant,
        ValueView::Json(_) => "json"@,
        ValueView::PMap(_) => "pmap"@,
        ValueView::PBTree(_) => "pbtree"@,
        ValueView::PVec { len, root } => "pvec of length "@ + decimal(len as nat),
        ValueView::Interface { iface, target_module } => "interface "@ + iface,
    }
}

fn kind_of_size(kind: &str, n: usize) -> (r: String)
    ensures
        r@ == kind@ + decimal(n as nat),
{
    let r = concat_num(kind, n as u128, "");
    proof {
        reveal_strlit("");
    }
    assert(r@ =~= kind@ + decimal(n as nat));
    r
}

fn unsigned_text(n: u128) -> (r: String)
    ensures
        r@ == decimal(n as nat),
{
    let r = concat_num("", n, "");
    proof {
        reveal_strlit("");
    }
    assert(r@ =~= decimal(n as nat));
    r
}

impl Value {
    /// A short text for messages.
    pub fn to_string(&self) -> (r: String)
        ensures
            r@ == shown(self@),
    {
        match self {
            Value::Int(n) => n.to_string(),
            Value::UInt(n) => n.to_string(),
            Value::Float(_) => text("float"),
            Value::I32(n) => BigInt::from_i64(*n as i64).to_string(),
            Value::U32(n) => unsigned_text(*n as u128),
            Value::U64(n) => unsigned_text(*n as u128),
            Value::U128(n) => unsigned_text(*n),
            Value::Bool(b) => if *b {
                text("true")
            } else {
                text("false")
            },
            Value::Unit => text("()"),
            Value::Resource(n) => concat3(
                "resource(",
                BigInt::from_i64(*n).to_string().as_str(),
                ")",
            ),
            Value::Str(s) => s.clone(),
            Value::Address(s) => concat2("@", s.as_str()),
            Value::Bytes(b) => kind_of_size("bytes of length ", b.len()),
            Value::Array(v) => kind_of_size("array of length ", v.len()),
            Value::SetOf(v) => kind_of_size("set of size ", v.len()),
            Value::Dict(v) => kind_of_size("dict of size ", v.len()),
            Value::Tuple(v) => kind_of_size("tuple of length ", v.len()),
            Value::Struct { name, fields: _ } => concat2("struct ", name.as_str()),
            Value::Enum { enum_name, variant, payload: _ } => concat3(
                enum_name.as_str(),
                "::",
                variant.as_str(),
            ),
            Value::Json(_) => text("json"),
            Value::PMap(_) => text("pmap"),
            Value::PBTree(_) => text("pbtree"),
            Value::PVec { len, root: _ } => {
                let r = concat_num("pvec of length ", *len as u128, "");
                proof {
                    reveal_strlit("");
                }
                assert(r@ =~= "pvec of length "@ + decimal(*len as nat));
                r
            },
            Value::Interface { iface, target_module: _ } => concat2("interface ", iface.as_str()),
        }
    }
}

pub open spec fn all_key_values(s: Seq<ValueView>, n: nat) -> bool
    decreases s, n,
    when n <= s.len()
{
    n == 0 || (all_key_values(s, (n - 1) as nat) && key_value(s[n - 1]))
}

pub open spec fn all_key_fields(s: Seq<(Seq<char>, ValueView)>, n: nat) -> bool
    decreases s, n,
    when n <= s.len()
{
    n == 0 || (all_key_fields(s, (n - 1) as nat) && key_value(s[n - 1].1))
}

/// Whether a value can be the key of a map.
pub open spec fn key_value(v: ValueView) -> bool
    decreases v,
{
    match v {
        ValueView::Int(_)
        | ValueView::I32(_)
        | ValueView::U32(_)
        | ValueView::U64(_)
        | ValueView::U128(_)
        | ValueView::Bool(_)
        | ValueView::Str(_)
        | ValueView::Address(_)
        | ValueView::Bytes(_) => true,
        ValueView::Array(s) => all_key_values(s, s.len()),
        ValueView::Struct { name, fields } => all_key_fields(fields, fields.len()),
        ValueView::Enum { enum_name, variant, payload } => all_key_values(payload, payload.len()),
        _ => false,
    }
}

proof fn lemma_not_all_keys(s: Seq<ValueView>, n: nat, m: nat)
    requires
        n <= m <= s.len(),
        !all_key_values(s, n),
    ensures
        !all_key_values(s, m),
    decreases m,
{
    if n < m {
        lemma_not_all_keys(s, n, (m - 1) as nat);
    }
}

proof fn lemma_not_all_key_fields(s: Seq<(Seq<char>, ValueView)>, n: nat, m: nat)
    requires
        n <= m <= s.len(),
        !all_key_fields(s, n),
    ensures
        !all_key_fields(s, m),
    decreases m,
{
    if n < m {
        lemma_not_all_key_fields(s, n, (m - 1) as nat);
    }
}

#[verifier::loop_isolation(false)]
fn are_key_values(v: &Vec<Value>) -> (r: bool)
    ensures
        r == all_key_values(views(v@), v@.len()),
    decreases v,
{
    let ghost s = views(v@);
    let mut i: usize = 0;
    while i < v.len()
        invariant
            i <= v@.len(),
            all_key_values(s, i as nat),
        decreases v@.len() - i,
    {
        if !is_keyable_value(&v[i]) {
            proof {
                assert(!key_value(s[i as int]));
                assert(!all_key_values(s, i as nat + 1));
                lemma_not_all_keys(s, i as nat + 1, s.len());
            }
            return false;
        }
        assert(key_value(s[i as int]));
        i = i + 1;
    }
    true
}

#[verifier::loop_isolation(false)]
fn are_key_fields(v: &Vec<(String, Value)>) -> (r: bool)
    ensures
        r == all_key_fields(field_views(v@), v@.len()),
    decreases v,
{
    let ghost s = field_views(v@);
    let mut i: usize = 0;
    while i < v.len()
        invariant
            i <= v@.len(),
            all_key_fields(s, i as nat),
        decreases v@.len() - i,
    {
        if !is_keyable_value(&v[i].1) {
            proof {
                assert(!key_value(s[i as int].1));
                assert(!all_key_fields(s, i as nat + 1));
                lemma_not_all_key_fields(s, i as nat + 1, s.len());
            }
            return false;
        }
        assert(key_value(s[i as int].1));
        i = i + 1;
    }
    true
}

pub fn is_keyable_value(v: &Value) -> (r: bool)
    ensures
        r == key_value(value_view(*v)),
    decreases v,
{
    match v {
        Value::Int(_)
        | Value::I32(_)
        | Value::U32(_)
        | Value::U64(_)
        | Value::U128(_)
        | Value::Bool(_)
        | Value::Str(_)
        | Value::Address(_)
        | Value::Bytes(_) => true,
        Value::Array(s) => are_key_values(s),
        Value::Struct { name: _, fields } => are_key_fields(fields),
        Value::Enum { enum_name: _, variant: _, payload } => are_key_values(payload),
        _ => false,
    }
}

/// The machine number that a value holds, if it is one in range.
pub open spec fn as_u64(v: ValueView) -> Option<u64> {
    match v {
        ValueView::U64(n) => Some(n),
        ValueView::U32(n) => Some(n as u64),
        ValueView::I32(n) => if n >= 0 {
            Some(n as u64)
        } else {
            None
        },
        ValueView::U128(n) => if n <= u64::MAX {
            Some(n as u64)
        } else {
            None
        },
        ValueView::Int(n) => if 0 <= n <= u64::MAX {
            Some(n as u64)
        } else {
            None
        },
        ValueView::UInt(n) => if 0 <= n <= u64::MAX {
            Some(n as u64)
        } else {
            None
        },
        _ => None,
    }
}

pub fn value_to_u64(v: &Value) -> (r: Option<u64>)
    ensures
        r == as_u64(v@),
{
    match v {
        Value::U64(n) => Some(*n),
        Value::U32(n) => Some(*n as u64),
        Value::I32(n) => if *n >= 0 {
            Some(*n as u64)
        } else {
            None
        },
        Value::U128(n) => if *n <= 0xffff_ffff_ffff_ffff {
            Some(*n as u64)
        } else {
            None
        },
        Value::Int(n) => n.to_u64(),
        Value::UInt(n) => n.to_u64(),
        _ => None,
    }
}

/// Equality is reflexive.
pub proof fn equal_is_reflexive(v: ValueView)
    requires
        distinct_keys(v),
    ensures
        equal(v, v),
    decreases v, 1nat,
{
    match v {
        ValueView::Array(s) => lemma_lists_reflexive(s, s.len()),
        ValueView::SetOf(s) => lemma_lists_reflexive(s, s.len()),
        ValueView::Tuple(s) => lemma_lists_reflexive(s, s.len()),
        ValueView::Dict(s) => lemma_pairs_reflexive(s, s.len()),
        ValueView::Struct { name, fields } => lemma_fields_reflexive(fields, fields.len()),
        ValueView::Enum { enum_name, variant, payload } => lemma_lists_reflexive(payload, payload.len()),
        ValueView::Json(j) => match j {
            JsonView::Null => {},
            JsonView::Array(s) => lemma_lists_reflexive(s, s.len()),
            JsonView::Object(s) => lemma_entries_reflexive(s, s.len()),
        },
        _ => {},
    }
}

/// Whether no JSON object inside a value has a key twice.
pub open spec fn distinct_keys(v: ValueView) -> bool
    decreases v,
{
    match v {
        ValueView::Array(s) => forall|i: int| 0 <= i < s.len() ==> distinct_keys(#[trigger] s[i]),
        ValueView::SetOf(s) => forall|i: int| 0 <= i < s.len() ==> distinct_keys(#[trigger] s[i]),
        ValueView::Tuple(s) => forall|i: int| 0 <= i < s.len() ==> distinct_keys(#[trigger] s[i]),
        ValueView::Dict(s) => forall|i: int|
            0 <= i < s.len() ==> distinct_keys((#[trigger] s[i]).0) && distinct_keys(s[i].1),
        ValueView::Struct { name, fields } => forall|i: int|
            0 <= i < fields.len() ==> distinct_keys((#[trigger] fields[i]).1),
        ValueView::Enum { enum_name, variant, payload } => forall|i: int|
            0 <= i < payload.len() ==> distinct_keys(#[trigger] payload[i]),
        ValueView::Json(JsonView::Array(s)) => forall|i: int|
            0 <= i < s.len() ==> distinct_keys(#[trigger] s[i]),
        ValueView::Json(JsonView::Object(s)) => {
            &&& no_key_twice(s)
            &&& forall|i: int| 0 <= i < s.len() ==> distinct_keys((#[trigger] s[i]).1)
        },
        _ => true,
    }
}

pub open spec fn no_key_twice(s: Seq<(Seq<char>, ValueView)>) -> bool {
    forall|i: int, j: int| 0 <= i < j < s.len() ==> (#[trigger] s[i]).0 != (#[trigger] s[j]).0
}

proof fn lemma_lists_reflexive(s: Seq<ValueView>, n: nat)
    requires
        n <= s.len(),
        forall|i: int| 0 <= i < s.len() ==> distinct_keys(#[trigger] s[i]),
    ensures
        equal_lists(s, s, n),
    decreases s, n,
{
    if n > 0 {
        lemma_lists_reflexive(s, (n - 1) as nat);
        equal_is_reflexive(s[n - 1]);
    }
}

proof fn lemma_pairs_reflexive(s: Seq<(ValueView, ValueView)>, n: nat)
    requires
        n <= s.len(),
        forall|i: int| 0 <= i < s.len() ==> distinct_keys((#[trigger] s[i]).0) && distinct_keys(s[i].1),
    ensures
        equal_pairs(s, s, n),
    decreases s, n,
{
    if n > 0 {
        lemma_pairs_reflexive(s, (n - 1) as nat);
        equal_is_reflexive(s[n - 1].0);
        equal_is_reflexive(s[n - 1].1);
    }
}

proof fn lemma_fields_reflexive(s: Seq<(Seq<char>, ValueView)>, n: nat)
    requires
        n <= s.len(),
        forall|i: int| 0 <= i < s.len() ==> distinct_keys((#[trigger] s[i]).1),
    ensures
        equal_fields(s, s, n),
    decreases s, n,
{
    if n > 0 {
        lemma_fields_reflexive(s, (n - 1) as nat);
        equal_is_reflexive(s[n - 1].1);
    }
}

/// A name that stands once is found where it stands.
pub proof fn lemma_field_at(s: Seq<(Seq<char>, ValueView)>, k: int, i: nat)
    requires
        no_key_twice(s),
        i <= k < s.len(),
    ensures
        field_at(s, s[k].0, i) == Some(k),
    decreases k - i,
{
    if i < k {
        lemma_field_at(s, k, i + 1);
    }
}

proof fn lemma_entries_reflexive(s: Seq<(Seq<char>, ValueView)>, n: nat)
    requires
        n <= s.len(),
        no_key_twice(s),
        forall|i: int| 0 <= i < s.len() ==> distinct_keys((#[trigger] s[i]).1),
    ensures
        equal_entries(s, s, n),
    decreases s, n,
{
    if n > 0 {
        lemma_entries_reflexive(s, (n - 1) as nat);
        lemma_field_at(s, n - 1, 0);
        equal_is_reflexive(s[n - 1].1);
    }
}

/// Equality is symmetric.
pub proof fn equal_is_symmetric(a: ValueView, b: ValueView)
    requires
        distinct_keys(a),
        distinct_keys(b),
        equal(a, b),
    ensures
        equal(b, a),
    decreases a, 1nat,
{
    match (a, b) {
        (ValueView::Array(x), ValueView::Array(y)) => lemma_lists_symmetric(x, y, x.len()),
        (ValueView::SetOf(x), ValueView::SetOf(y)) => lemma_lists_symmetric(x, y, x.len()),
        (ValueView::Tuple(x), ValueView::Tuple(y)) => lemma_lists_symmetric(x, y, x.len()),
        (ValueView::Dict(x), ValueView::Dict(y)) => lemma_pairs_symmetric(x, y, x.len()),
        (
            ValueView::Struct { name, fields },
            ValueView::Struct { name: name2, fields: fields2 },
        ) => lemma_fields_symmetric(fields, fields2, fields.len()),
        (
            ValueView::Enum { enum_name, variant, payload },
            ValueView::Enum { enum_name: enum_name2, variant: variant2, payload: payload2 },
        ) => lemma_lists_symmetric(payload, payload2, payload.len()),
        (ValueView::Json(x), ValueView::Json(y)) => match (x, y) {
            (JsonView::Array(p), JsonView::Array(q)) => lemma_lists_symmetric(p, q, p.len()),
            (JsonView::Object(p), JsonView::Object(q)) => lemma_entries_symmetric(p, q, q.len()),
            _ => {},
        },
        _ => {},
    }
}

proof fn lemma_lists_symmetric(x: Seq<ValueView>, y: Seq<ValueView>, n: nat)
    requires
        n <= x.len() == y.len(),
        forall|i: int| 0 <= i < x.len() ==> distinct_keys(#[trigger] x[i]),
        forall|i: int| 0 <= i < y.len() ==> distinct_keys(#[trigger] y[i]),
        equal_lists(x, y, n),
    ensures
        equal_lists(y, x, n),
    decreases x, n,
{
    if n > 0 {
        lemma_lists_symmetric(x, y, (n - 1) as nat);
        equal_is_symmetric(x[n - 1], y[n - 1]);
    }
}

proof fn lemma_pairs_symmetric(x: Seq<(ValueView, ValueView)>, y: Seq<(ValueView, ValueView)>, n: nat)
    requires
        n <= x.len() == y.len(),
        forall|i: int| 0 <= i < x.len() ==> distinct_keys((#[trigger] x[i]).0) && distinct_keys(x[i].1),
        forall|i: int| 0 <= i < y.len() ==> distinct_keys((#[trigger] y[i]).0) && distinct_keys(y[i].1),
        equal_pairs(x, y, n),
    ensures
        equal_pairs(y, x, n),
    decreases x, n,
{
    if n > 0 {
        lemma_pairs_symmetric(x, y, (n - 1) as nat);
        equal_is_symmetric(x[n - 1].0, y[n - 1].0);
        equal_is_symmetric(x[n - 1].1, y[n - 1].1);
    }
}

proof fn lemma_fields_symmetric(x: Seq<(Seq<char>, ValueView)>, y: Seq<(Seq<char>, ValueView)>, n: nat)
    requires
        n <= x.len() == y.len(),
        forall|i: int| 0 <= i < x.len() ==> distinct_keys((#[trigger] x[i]).1),
        forall|i: int| 0 <= i < y.len() ==> distinct_keys((#[trigger] y[i]).1),
        equal_fields(x, y, n),
    ensures
        equal_fields(y, x, n),
    decreases x, n,
{
    if n > 0 {
        lemma_fields_symmetric(x, y, (n - 1) as nat);
        equal_is_symmetric(x[n - 1].1, y[n - 1].1);
    }
}

/// What equality of entries says of one of them.
proof fn lemma_entry_equal(x: Seq<(Seq<char>, ValueView)>, y: Seq<(Seq<char>, ValueView)>, n: nat, i: int)
    requires
        0 <= i < n <= x.len(),
        equal_entries(x, y, n),
    ensures
        match field_at(y, x[i].0, 0) {
            Some(k) => 0 <= k < y.len() && y[k].0 == x[i].0 && equal(x[i].1, y[k].1),
            None => false,
        },
    decreases n,
{
    if i < n - 1 {
        lemma_entry_equal(x, y, (n - 1) as nat, i);
    } else {
        lemma_field_at_range(y, x[i].0, 0);
    }
}

/// Two objects with as many keys, where the one has all keys of the other, have the
/// same keys.
proof fn lemma_same_keys(x: Seq<(Seq<char>, ValueView)>, y: Seq<(Seq<char>, ValueView)>, j: int) -> (i: int)
    requires
        x.len() == y.len(),
        no_key_twice(x),
        no_key_twice(y),
        equal_entries(x, y, x.len()),
        0 <= j < y.len(),
    ensures
        0 <= i < x.len(),
        x[i].0 == y[j].0,
{
    let p = Seq::new(x.len(), |k: int| x[k].0);
    let q = Seq::new(y.len(), |k: int| y[k].0);
    assert(p.no_duplicates()) by {
        assert forall|a: int, b: int| 0 <= a < p.len() && 0 <= b < p.len() && a != b implies p[a] != p[b] by {
            if a < b {
                assert(x[a].0 != x[b].0);
            } else {
                assert(x[b].0 != x[a].0);
            }
        }
    }
    assert(q.no_duplicates()) by {
        assert forall|a: int, b: int| 0 <= a < q.len() && 0 <= b < q.len() && a != b implies q[a] != q[b] by {
            if a < b {
                assert(y[a].0 != y[b].0);
            } else {
                assert(y[b].0 != y[a].0);
            }
        }
    }
    p.unique_seq_to_set();
    q.unique_seq_to_set();
    vstd::seq_lib::seq_to_set_is_finite(q);
    assert forall|name: Seq<char>| p.to_set().contains(name) implies q.to_set().contains(name) by {
        let k = choose|k: int| 0 <= k < p.len() && p[k] == name;
        lemma_entry_equal(x, y, x.len(), k);
        let m = field_at(y, x[k].0, 0)->0;
        assert(q[m] == name);
    }
    vstd::set_lib::lemma_subset_equality(p.to_set(), q.to_set());
    assert(q[j] == y[j].0);
    assert(q.to_set().contains(q[j]));
    assert(p.to_set().contains(q[j]));
    let i = choose|i: int| 0 <= i < p.len() && p[i] == q[j];
    i
}

proof fn lemma_entries_symmetric(x: Seq<(Seq<char>, ValueView)>, y: Seq<(Seq<char>, ValueView)>, n: nat)
    requires
        n <= y.len() == x.len(),
        no_key_twice(x),
        no_key_twice(y),
        forall|i: int| 0 <= i < x.len() ==> distinct_keys((#[trigger] x[i]).1),
        forall|i: int| 0 <= i < y.len() ==> distinct_keys((#[trigger] y[i]).1),
        equal_entries(x, y, x.len()),
    ensures
        equal_entries(y, x, n),
    decreases x, n,
{
    if n > 0 {
        lemma_entries_symmetric(x, y, (n - 1) as nat);
        let i = lemma_same_keys(x, y, n - 1);
        lemma_field_at(x, i, 0);
        lemma_field_at(y, n - 1, 0);
        lemma_entry_equal(x, y, x.len(), i);
        equal_is_symmetric(x[i].1, y[n - 1].1);
    }
}

/// Equality is transitive.
pub proof fn equal_is_transitive(a: ValueView, b: ValueView, c: ValueView)
    requires
        equal(a, b),
        equal(b, c),
    ensures
        equal(a, c),
    decreases a, 1nat,
{
    match (a, b, c) {
        (ValueView::Array(x), ValueView::Array(y), ValueView::Array(z)) => lemma_lists_transitive(x, y, z, x.len()),
        (ValueView::SetOf(x), ValueView::SetOf(y), ValueView::SetOf(z)) => lemma_lists_transitive(x, y, z, x.len()),
        (ValueView::Tuple(x), ValueView::Tuple(y), ValueView::Tuple(z)) => lemma_lists_transitive(x, y, z, x.len()),
        (ValueView::Dict(x), ValueView::Dict(y), ValueView::Dict(z)) => lemma_pairs_transitive(x, y, z, x.len()),
        (
            ValueView::Struct { name, fields },
            ValueView::Struct { name: name2, fields: fields2 },
            ValueView::Struct { name: name3, fields: fields3 },
        ) => lemma_fields_transitive(fields, fields2, fields3, fields.len()),
        (
            ValueView::Enum { enum_name, variant, payload },
            ValueView::Enum { enum_name: enum_name2, variant: variant2, payload: payload2 },
            ValueView::Enum { enum_name: enum_name3, variant: variant3, payload: payload3 },
        ) => lemma_lists_transitive(payload, payload2, payload3, payload.len()),
        (ValueView::Json(x), ValueView::Json(y), ValueView::Json(z)) => match (x, y, z) {
            (JsonView::Array(p), JsonView::Array(q), JsonView::Array(r)) => lemma_lists_transitive(p, q, r, p.len()),
            (JsonView::Object(p), JsonView::Object(q), JsonView::Object(r)) => lemma_entries_transitive(
                p,
                q,
                r,
                p.len(),
            ),
            _ => {},
        },
        _ => {},
    }
}

proof fn lemma_lists_transitive(x: Seq<ValueView>, y: Seq<ValueView>, z: Seq<ValueView>, n: nat)
    requires
        n <= x.len() == y.len() == z.len(),
        equal_lists(x, y, n),
        equal_lists(y, z, n),
    ensures
        equal_lists(x, z, n),
    decreases x, n,
{
    if n > 0 {
        lemma_lists_transitive(x, y, z, (n - 1) as nat);
        equal_is_transitive(x[n - 1], y[n - 1], z[n - 1]);
    }
}

proof fn lemma_pairs_transitive(
    x: Seq<(ValueView, ValueView)>,
    y: Seq<(ValueView, ValueView)>,
    z: Seq<(ValueView, ValueView)>,
    n: nat,
)
    requires
        n <= x.len() == y.len() == z.len(),
        equal_pairs(x, y, n),
        equal_pairs(y, z, n),
    ensures
        equal_pairs(x, z, n),
    decreases x, n,
{
    if n > 0 {
        lemma_pairs_transitive(x, y, z, (n - 1) as nat);
        equal_is_transitive(x[n - 1].0, y[n - 1].0, z[n - 1].0);
        equal_is_transitive(x[n - 1].1, y[n - 1].1, z[n - 1].1);
    }
}

proof fn lemma_fields_transitive(
    x: Seq<(Seq<char>, ValueView)>,
    y: Seq<(Seq<char>, ValueView)>,
    z: Seq<(Seq<char>, ValueView)>,
    n: nat,
)
    requires
        n <= x.len() == y.len() == z.len(),
        equal_fields(x, y, n),
        equal_fields(y, z, n),
    ensures
        equal_fields(x, z, n),
    decreases x, n,
{
    if n > 0 {
        lemma_fields_transitive(x, y, z, (n - 1) as nat);
        equal_is_transitive(x[n - 1].1, y[n - 1].1, z[n - 1].1);
    }
}

proof fn lemma_entries_transitive(
    x: Seq<(Seq<char>, ValueView)>,
    y: Seq<(Seq<char>, ValueView)>,
    z: Seq<(Seq<char>, ValueView)>,
    n: nat,
)
    requires
        n <= x.len(),
        equal_entries(x, y, n),
        equal_entries(y, z, y.len()),
    ensures
        equal_entries(x, z, n),
    decreases x, n,
{
    if n > 0 {
        lemma_entries_transitive(x, y, z, (n - 1) as nat);
        lemma_entry_equal(x, y, n, n - 1);
        let k = field_at(y, x[n - 1].0, 0)->0;
        lemma_entry_equal(y, z, y.len(), k);
        let m = field_at(z, y[k].0, 0)->0;
        equal_is_transitive(x[n - 1].1, y[k].1, z[m].1);
    }
}

} // verus!
