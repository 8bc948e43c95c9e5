//! Bytecode.

use vstd::prelude::*;
use crate::ast::{BinOp, InterfaceDecl, Type, UnOp};
use crate::bigint::BigInt;
use crate::text::same;

verus! {

/// A compiled module.
#[derive(Debug)]
pub struct BcModule {
    pub name: String,
    pub imports: Vec<String>,
    pub state_roots: Vec<u128>,
    pub state_types: Vec<Type>,
    /// The stored form of each state's initial value.
    pub state_defaults: Vec<Vec<u8>>,
    pub state_names: Vec<String>,
    pub struct_shapes: Vec<StructShape>,
    pub functions: Vec<BcFn>,
    pub path_specs: Vec<PathSpec>,
    pub enum_shapes: Vec<EnumShape>,
    pub interfaces: Vec<InterfaceDecl>,
}

/// The cell of a field inside a state, and the type stored there.
#[derive(Debug)]
pub struct PathSpec {
    pub leaf_key: u128,
    pub leaf_type: Type,
    pub is_blob: bool,
}

#[derive(Debug)]
pub struct StructShape {
    pub name: String,
    pub field_names: Vec<String>,
}

#[derive(Debug)]
pub struct EnumShape {
    pub name: String,
    pub variant_names: Vec<String>,
}

/// A compiled function.
#[derive(Debug)]
pub struct BcFn {
    pub name: String,
    pub n_params: u16,
    pub n_regs: u16,
    pub code: Vec<Instr>,
    pub consts: Vec<Const>,
    pub is_entry: bool,
    pub is_nore: bool,
    pub read_groups: Vec<Vec<ReadOp>>,
    pub param_types: Vec<Type>,
    pub return_type: Type,
    pub is_view: bool,
    pub is_pure: bool,
}

/// One read of a batch.
#[derive(Debug, Clone, Copy, PartialEq, Eq, Structural)]
pub enum ReadOp {
    State { dst: u16, key_idx: u16 },
    Path { dst: u16, path_idx: u16 },
}

#[derive(Debug)]
pub enum Const {
    Int(BigInt),
    UInt(BigInt),
    /// The bit pattern of a 64-bit float.
    Float(u64),
    I32(i32),
    U32(u32),
    U64(u64),
    U128(u128),
    Bool(bool),
    Str(String),
}

/// The model of a [`Const`].
pub enum ConstView {
    Int(int),
    UInt(int),
    Float(u64),
    I32(i32),
    U32(u32),
    U64(u64),
    U128(u128),
    Bool(bool),
    Str(Seq<char>),
}

impl View for Const {
    type V = ConstView;

    open spec fn view(&self) -> ConstView {
        match *self {
            Const::Int(n) => ConstView::Int(n@),
            Const::UInt(n) => ConstView::UInt(n@),
            Const::Float(n) => ConstView::Float(n),
            Const::I32(n) => ConstView::I32(n),
            Const::U32(n) => ConstView::U32(n),
            Const::U64(n) => ConstView::U64(n),
            Const::U128(n) => ConstView::U128(n),
            Const::Bool(n) => ConstView::Bool(n),
            Const::Str(s) => ConstView::Str(s@),
        }
    }
}

#[derive(Debug, Clone, Copy, PartialEq, Eq, Structural)]
pub enum Instr {
    LoadConst { dst: u16, idx: u16 },
    Move { dst: u16, src: u16 },
    Bin { op: BinOp, dst: u16, lhs: u16, rhs: u16 },
    Un { op: UnOp, dst: u16, src: u16 },
    Jump { offset: i32 },
    JumpIfFalse { cond: u16, offset: i32 },
    Call { dst: u16, fn_idx: u16, args_start: u16, n_args: u8 },
    CallHost { dst: u16, import_idx: u16, args_start: u16, n_args: u8 },
    CallExternal {
        dst: u16,
        module_name_idx: u16,
        fn_name_idx: u16,
        args_start: u16,
        n_args: u8,
        is_view: bool,
        is_pure: bool,
    },
    MakeInterface { dst: u16, iface_name_idx: u16, target_reg: u16 },
    CallExternalDyn {
        dst: u16,
        target_reg: u16,
        fn_name_idx: u16,
        args_start: u16,
        n_args: u8,
        is_view: bool,
        is_pure: bool,
    },
    Return { src: u16 },
    ReturnUnit,
    BuiltinResource { dst: u16, src: u16 },
    BuiltinUnwrap { dst: u16, src: u16 },
    BuiltinAddress { dst: u16, src: u16 },
    BuiltinLen { dst: u16, src: u16 },
    Convert { dst: u16, src: u16, target: u8 },
    MakeArray { dst: u16, args_start: u16, n: u16 },
    ArrayGet { dst: u16, arr: u16, idx: u16 },
    ArrayAppend { dst: u16, arr: u16, elem: u16 },
    MakeSet { dst: u16, args_start: u16, n: u16 },
    MakeDict { dst: u16, args_start: u16, n_pairs: u16 },
    BuiltinCall { dst: u16, name_idx: u16, args_start: u16, n_args: u8 },
    MakeStruct { dst: u16, shape_idx: u16, args_start: u16, n: u16 },
    FieldGet { dst: u16, src: u16, name_idx: u16 },
    FieldSet { dst: u16, name_idx: u16, val: u16 },
    KvGet { dst: u16, key_idx: u16 },
    KvPut { src: u16, key_idx: u16 },
    KvGetPath { dst: u16, path_idx: u16 },
    KvPutPath { src: u16, path_idx: u16 },
    ReadBatch { group_idx: u16 },
    PrefetchMap { arr_reg: u16, state_idx: u16 },
    Emit { value: u16 },
    Context { dst: u16, kind: u8 },
    MakeTuple { dst: u16, args_start: u16, n: u16 },
    TupleGet { dst: u16, src: u16, index: u16 },
    MakeEnum { dst: u16, shape_idx: u16, variant_idx: u16, args_start: u16, n: u16 },
    EnumTag { dst: u16, src: u16 },
    EnumPayload { dst: u16, src: u16, index: u16 },
    MapGet { dst: u16, state_idx: u16, key_reg: u16 },
    MapPut { state_idx: u16, key_reg: u16, src: u16 },
    PMapGet { dst: u16, state_idx: u16, key_reg: u16 },
    PMapPut { state_idx: u16, key_reg: u16, src: u16 },
    PMapContains { dst: u16, state_idx: u16, key_reg: u16 },
    PVecGet { dst: u16, state_idx: u16, idx_reg: u16 },
    PVecSet { state_idx: u16, idx_reg: u16, src: u16 },
    PVecPush { dst: u16, state_idx: u16, src: u16 },
    PVecLen { dst: u16, state_idx: u16 },
    PMapEntries { dst: u16, state_idx: u16 },
    PMapKeys { dst: u16, state_idx: u16 },
    PMapValues { dst: u16, state_idx: u16 },
    PVecToArray { dst: u16, state_idx: u16 },
    PMapAppendUnique { state_idx: u16, key_reg: u16, elem_reg: u16 },
    PMapPutUnique { state_idx: u16, key_reg: u16, src: u16 },
    PMapWalkInit { dst: u16, state_idx: u16 },
    PMapWalkNext { cursor_reg: u16, value_reg: u16, end_offset: i32 },
    PBTreeGet { dst: u16, state_idx: u16, key_reg: u16 },
    PBTreePut { state_idx: u16, key_reg: u16, src: u16 },
    PBTreeContains { dst: u16, state_idx: u16, key_reg: u16 },
    PBTreeRange { dst: u16, state_idx: u16, lo_reg: u16, hi_reg: u16 },
    PBTreeWalkInit { dst: u16, state_idx: u16 },
    PBTreeWalkNext { cursor_reg: u16, value_reg: u16, end_offset: i32 },
    PBTreePutUnique { state_idx: u16, key_reg: u16, src: u16 },
    PBTreeAppendUnique { state_idx: u16, key_reg: u16, elem_reg: u16 },
    PMapDelete { state_idx: u16, key_reg: u16 },
    PBTreeDelete { state_idx: u16, key_reg: u16 },
    PMapRemoveUnique { state_idx: u16, key_reg: u16, expected_reg: u16 },
    PMapRemoveFromList { state_idx: u16, key_reg: u16, elem_reg: u16 },
    PBTreeRemoveUnique { state_idx: u16, key_reg: u16, expected_reg: u16 },
    PBTreeRemoveFromList { state_idx: u16, key_reg: u16, elem_reg: u16 },
    IncReg { reg: u16 },
}

/// Where a name stands in a list: the last place that holds it.
pub open spec fn last_named(names: Seq<Seq<char>>, name: Seq<char>) -> Option<int>
    decreases names.len(),
{
    if names.len() == 0 {
        None
    } else if names.last() == name {
        Some(names.len() - 1)
    } else {
        last_named(names.drop_last(), name)
    }
}

/// The texts of a list of names.
pub open spec fn texts(s: Seq<String>) -> Seq<Seq<char>> {
    Seq::new(s.len(), |i: int| s[i]@)
}

/// What [`last_named`] finds is a place with that name, and there is none after it.
pub proof fn lemma_last_named(names: Seq<Seq<char>>, name: Seq<char>)
    ensures
        match last_named(names, name) {
            Some(k) => 0 <= k < names.len() && names[k] == name && forall|j: int|
                k < j < names.len() ==> #[trigger] names[j] != name,
            None => forall|j: int| 0 <= j < names.len() ==> #[trigger] names[j] != name,
        },
    decreases names.len(),
{
    if names.len() > 0 && names.last() != name {
        lemma_last_named(names.drop_last(), name);
        assert forall|j: int| 0 <= j < names.len() - 1 implies names[j] == names.drop_last()[j] by {}
    }
}

/// The last place of `name` in a list of names.
pub fn find_name(names: &Vec<String>, name: &str) -> (r: Option<usize>)
    ensures
        match r {
            Some(k) => last_named(texts(names@), name@) == Some(k as int) && k < names@.len(),
            None => last_named(texts(names@), name@) is None,
        },
{
    let mut i: usize = names.len();
    let ghost all = texts(names@);
    assert(all.take(i as int) =~= all);
    while i > 0
        invariant
            i <= names@.len(),
            all == texts(names@),
            last_named(all, name@) == last_named(all.take(i as int), name@),
        decreases i,
    {
        i = i - 1;
        assert(all.take(i as int + 1).drop_last() =~= all.take(i as int));
        if same(names[i].as_str(), name) {
            return Some(i);
        }
    }
    None
}

/// The names of the functions of a module.
pub open spec fn fn_names(m: BcModule) -> Seq<Seq<char>> {
    Seq::new(m.functions@.len(), |i: int| m.functions@[i].name@)
}

impl BcModule {
    /// The cell key of the state with the given name. The two lists describe the
    /// same states, one entry each.
    pub fn root_of(&self, name: &str) -> (r: Option<u128>)
        requires
            self.state_roots@.len() == self.state_names@.len(),
        ensures
            match last_named(texts(self.state_names@), name@) {
                Some(k) => r == Some(self.state_roots@[k]),
                None => r is None,
            },
    {
        match find_name(&self.state_names, name) {
            Some(k) => Some(self.state_roots[k]),
            None => None,
        }
    }

    /// The place of the function with the given name.
    pub fn find_fn(&self, name: &str) -> (r: Option<usize>)
        ensures
            match r {
                Some(k) => last_named(fn_names(*self), name@) == Some(k as int) && k
                    < self.functions@.len(),
                None => last_named(fn_names(*self), name@) is None,
            },
    {
        let mut i: usize = self.functions.len();
        let ghost all = fn_names(*self);
        assert(all.take(i as int) =~= all);
        while i > 0
            invariant
                i <= self.functions@.len(),
                all == fn_names(*self),
                last_named(all, name@) == last_named(all.take(i as int), name@),
            decreases i,
        {
            i = i - 1;
            assert(all.take(i as int + 1).drop_last() =~= all.take(i as int));
            if same(self.functions[i].name.as_str(), name) {
                return Some(i);
            }
        }
        None
    }
}

} // verus!
