//! The syntax tree.

use vstd::prelude::*;
use crate::bigint::BigInt;
use crate::text::{concat3, text};
use crate::token::Span;

verus! {

/// One source module.
#[derive(Debug)]
pub struct Module {
    pub name: Option<String>,
    pub imports: Vec<Import>,
    pub states: Vec<StateDecl>,
    pub functions: Vec<FnDef>,
    pub structs: Vec<StructDecl>,
    pub handlers: Vec<HandlerDecl>,
    pub modifiers: Vec<ModifierDecl>,
    pub enums: Vec<EnumDecl>,
    pub consts: Vec<ConstDecl>,
    pub caps: Vec<CapDecl>,
    pub interfaces: Vec<InterfaceDecl>,
    pub indexes: Vec<IndexDecl>,
}

/// A secondary index over a primary state.
#[derive(Debug)]
pub struct IndexDecl {
    pub name: String,
    pub on_state: String,
    pub fields: Vec<IndexField>,
    pub kind: IndexKind,
    pub span: Span,
}

/// One component of an index key.
#[derive(Debug)]
pub struct IndexField {
    pub path: Vec<String>,
    pub direction: SortDirection,
}

#[derive(Debug, Clone, Copy, PartialEq, Eq, Structural)]
pub enum SortDirection {
    Asc,
    Desc,
}

/// Whether an index key names one primary key or a list of them.
#[derive(Debug, Clone, Copy, PartialEq, Eq, Structural)]
pub enum IndexKind {
    Unique,
    Multi,
}

#[derive(Debug)]
pub struct ConstDecl {
    pub name: String,
    pub ty: Type,
    pub value: Expr,
    pub span: Span,
}

#[derive(Debug)]
pub struct EnumDecl {
    pub name: String,
    pub variants: Vec<EnumVariant>,
    pub span: Span,
}

#[derive(Debug)]
pub struct EnumVariant {
    pub name: String,
    pub payload: Vec<Type>,
    pub span: Span,
}

#[derive(Debug)]
pub struct ModifierDecl {
    pub name: String,
    pub params: Vec<Param>,
    pub body: Block,
    pub span: Span,
}

#[derive(Debug)]
pub struct StructDecl {
    pub name: String,
    pub fields: Vec<StructField>,
    pub is_pub: bool,
    pub span: Span,
}

#[derive(Debug)]
pub struct HandlerDecl {
    pub event_module: Option<String>,
    pub event_type: String,
    pub fn_def: FnDef,
    pub span: Span,
}

#[derive(Debug)]
pub struct InterfaceDecl {
    pub name: String,
    pub methods: Vec<InterfaceMethod>,
    pub span: Span,
}

#[derive(Debug)]
pub struct InterfaceMethod {
    pub name: String,
    pub params: Vec<Param>,
    pub return_type: Type,
    pub is_view: bool,
    pub is_pure: bool,
    pub span: Span,
}

#[derive(Debug)]
pub struct CapDecl {
    pub name: String,
    pub fields: Vec<StructField>,
    pub span: Span,
}

#[derive(Debug)]
pub struct StructField {
    pub name: String,
    pub ty: Type,
    pub group: Option<String>,
    pub span: Span,
}

#[derive(Debug)]
pub struct Import {
    pub name: String,
    pub params: Vec<Type>,
    pub return_type: Type,
    pub span: Span,
}

#[derive(Debug)]
pub struct StateDecl {
    pub name: String,
    pub ty: Type,
    pub span: Span,
}

#[derive(Debug)]
pub struct FnDef {
    pub name: String,
    pub params: Vec<Param>,
    pub return_type: Type,
    pub body: Block,
    pub is_nore: bool,
    pub is_entry: bool,
    pub is_view: bool,
    pub is_pure: bool,
    pub modifiers: Vec<(String, Vec<Expr>)>,
    pub span: Span,
}

#[derive(Debug)]
pub struct Param {
    pub name: String,
    pub ty: Type,
    pub span: Span,
}

#[derive(Debug, PartialEq, Eq)]
pub enum Type {
    Int,
    UInt,
    Float,
    I32,
    U32,
    U64,
    U128,
    Bool,
    Unit,
    Resource,
    String,
    Address,
    Bytes,
    Array(Box<Type>),
    SetOf(Box<Type>),
    Dict { key: Box<Type>, value: Box<Type> },
    MapOf { key: Box<Type>, value: Box<Type> },
    PMap { key: Box<Type>, value: Box<Type> },
    PBTree { key: Box<Type>, value: Box<Type> },
    PVec { elem: Box<Type> },
    Json,
    Struct {
        name: std::string::String,
        fields: Vec<(std::string::String, Type)>,
        field_groups: Vec<Option<std::string::String>>,
    },
    Tuple(Vec<Type>),
    Enum { name: std::string::String, variants: Vec<(std::string::String, Vec<Type>)> },
    Cap {
        name: std::string::String,
        fields: Vec<(std::string::String, Type)>,
        owner_module: std::string::String,
    },
    Interface { name: std::string::String, methods: Vec<InterfaceMethodSig> },
}

#[derive(Debug, PartialEq, Eq)]
pub struct InterfaceMethodSig {
    pub name: String,
    pub params: Vec<Type>,
    pub return_type: Type,
    pub is_view: bool,
    pub is_pure: bool,
}

#[derive(Debug)]
pub struct Block {
    pub stmts: Vec<Stmt>,
    pub tail: Option<Box<Expr>>,
    pub span: Span,
}

#[derive(Debug)]
pub enum Stmt {
    Let { name: String, ty: Option<Type>, value: Expr, span: Span },
    Assign { target: Expr, value: Expr, span: Span },
    Return { value: Option<Expr>, span: Span },
    If(IfStmt),
    While { cond: Expr, body: Block, span: Span },
    For { var: String, iter: Expr, body: Block, span: Span },
    ForRange { var: String, start: Expr, end: Expr, inclusive: bool, body: Block, span: Span },
    Break(Span),
    Continue(Span),
    Expr(Expr),
    Parallel { stmts: Vec<Stmt>, span: Span },
    ParallelForTo { id_var: String, source: Expr, output: Expr, body: Block, span: Span },
    Emit { value: Box<Expr>, span: Span },
    Delete { target: Expr, span: Span },
    LetTuple { names: Vec<String>, value: Expr, span: Span },
    Placeholder(Span),
}

#[derive(Debug)]
pub struct IfStmt {
    pub cond: Expr,
    pub then_block: Block,
    pub else_branch: ElseBranch,
    pub span: Span,
}

#[derive(Debug)]
pub enum ElseBranch {
    Absent,
    Block(Block),
    If(Box<IfStmt>),
}

#[derive(Debug)]
pub struct Expr {
    pub kind: ExprKind,
    pub span: Span,
}

#[derive(Debug)]
pub enum ExprKind {
    Int(BigInt),
    UInt(BigInt),
    /// The bit pattern of a 64-bit float.
    Float(u64),
    I32(i32),
    U32(u32),
    U64(u64),
    U128(u128),
    JsonObject(Vec<(String, Expr)>),
    JsonArray(Vec<Expr>),
    JsonNull,
    Bool(bool),
    Str(String),
    Ident(String),
    Binary { op: BinOp, lhs: Box<Expr>, rhs: Box<Expr> },
    Unary { op: UnOp, operand: Box<Expr> },
    Call { module: Option<String>, name: String, args: Vec<Expr> },
    DynCall {
        target_ident: String,
        method: String,
        args: Vec<Expr>,
        method_is_view: bool,
        method_is_pure: bool,
    },
    Index { target: Box<Expr>, key: Box<Expr> },
    Array(Vec<Expr>),
    StructLit { name: String, fields: Vec<(String, Expr)> },
    Field { target: Box<Expr>, name: String },
    Pipe { head: Box<Expr>, step: Box<Expr> },
    Prev,
    ListComp { mapper: Box<Expr>, clauses: Vec<CompClause> },
    SetLit(Vec<Expr>),
    SetComp { mapper: Box<Expr>, clauses: Vec<CompClause> },
    DictLit(Vec<(Expr, Expr)>),
    DictComp { key: Box<Expr>, value: Box<Expr>, clauses: Vec<CompClause> },
    TupleLit(Vec<Expr>),
    TupleIndex { target: Box<Expr>, index: usize },
    EnumCtor { enum_name: String, variant: String, args: Vec<Expr> },
    Match { scrut: Box<Expr>, arms: Vec<MatchArm> },
    Block(Block),
    If { cond: Box<Expr>, then_block: Block, else_branch: ElseBranch },
}

#[derive(Debug)]
pub struct MatchArm {
    pub pattern: MatchPattern,
    pub body: Expr,
    pub span: Span,
}

#[derive(Debug)]
pub enum MatchPattern {
    Wildcard,
    EnumVariant { enum_name: String, variant: String, bindings: Vec<String> },
}

#[derive(Debug)]
pub enum CompClause {
    For { var: String, iter: Expr },
    If(Expr),
}

#[derive(Debug, Clone, Copy, PartialEq, Eq, Structural)]
pub enum BinOp {
    Add,
    Sub,
    Mul,
    Div,
    Mod,
    Eq,
    NotEq,
    Lt,
    Gt,
    LtEq,
    GtEq,
    And,
    Or,
    BitAnd,
    BitOr,
    BitXor,
    Shl,
    Shr,
}

#[derive(Debug, Clone, Copy, PartialEq, Eq, Structural)]
pub enum UnOp {
    Neg,
    Not,
}

/// The shape of a type that carries a name and members.
pub enum Form {
    Struct,
    Enum,
    Cap,
    Interface,
}

/// One member of a named type: a field has one type and perhaps a group, a
/// variant its payload types, a method its parameter types and then its result.
pub struct Member {
    pub name: Seq<char>,
    pub types: Seq<TypeView>,
    pub group: Option<Seq<char>>,
    pub is_view: bool,
    pub is_pure: bool,
}

/// The model of a [`Type`].
pub enum TypeView {
    /// A type without parts, by its tag.
    Leaf(u8),
    /// A type of one part.
    Wrap(u8, Box<TypeView>),
    /// A type of a key and a value.
    Pair(u8, Box<TypeView>, Box<TypeView>),
    Tuple(Seq<TypeView>),
    Named { form: Form, name: Seq<char>, owner: Seq<char>, members: Seq<Member> },
}

pub open spec fn type_views(s: Seq<Type>) -> Seq<TypeView>
    decreases s,
{
    Seq::new(s.len(), |i: int| if 0 <= i < s.len() { type_view(s[i]) } else { arbitrary() })
}

/// The group of the `i`-th field; a field beyond the list has none.
pub open spec fn group_of(groups: Seq<Option<String>>, i: int) -> Option<Seq<char>> {
    if 0 <= i < groups.len() {
        match groups[i] {
            Some(g) => Some(g@),
            None => None,
        }
    } else {
        None
    }
}

pub open spec fn field_view(name: Seq<char>, ty: TypeView, group: Option<Seq<char>>) -> Member {
    Member { name, types: seq![ty], group, is_view: false, is_pure: false }
}

pub open spec fn variant_view(name: Seq<char>, payload: Seq<TypeView>) -> Member {
    Member { name, types: payload, group: None, is_view: false, is_pure: false }
}

/// What a type stands for: names as texts, and no difference between a struct
/// whose fields all lack a group and one without a group list.
pub open spec fn type_view(t: Type) -> TypeView
    decreases t,
{
    match t {
        Type::Int => TypeView::Leaf(0x01),
        Type::UInt => TypeView::Leaf(0x1d),
        Type::Float => TypeView::Leaf(0x1e),
        Type::I32 => TypeView::Leaf(0x02),
        Type::U32 => TypeView::Leaf(0x03),
        Type::U64 => TypeView::Leaf(0x04),
        Type::U128 => TypeView::Leaf(0x05),
        Type::Bool => TypeView::Leaf(0x06),
        Type::Unit => TypeView::Leaf(0x07),
        Type::Resource => TypeView::Leaf(0x08),
        Type::String => TypeView::Leaf(0x09),
        Type::Address => TypeView::Leaf(0x0a),
        Type::Bytes => TypeView::Leaf(0x0b),
        Type::Json => TypeView::Leaf(0x1c),
        Type::Array(e) => TypeView::Wrap(0x10, Box::new(type_view(*e))),
        Type::SetOf(e) => TypeView::Wrap(0x11, Box::new(type_view(*e))),
        Type::PVec { elem } => TypeView::Wrap(0x18, Box::new(type_view(*elem))),
        Type::Dict { key, value } => TypeView::Pair(
            0x12,
            Box::new(type_view(*key)),
            Box::new(type_view(*value)),
        ),
        Type::MapOf { key, value } => TypeView::Pair(
            0x13,
            Box::new(type_view(*key)),
            Box::new(type_view(*value)),
        ),
        Type::PMap { key, value } => TypeView::Pair(
            0x17,
            Box::new(type_view(*key)),
            Box::new(type_view(*value)),
        ),
        Type::PBTree { key, value } => TypeView::Pair(
            0x1b,
            Box::new(type_view(*key)),
            Box::new(type_view(*value)),
        ),
        Type::Tuple(elems) => TypeView::Tuple(type_views(elems@)),
        Type::Struct { name, fields, field_groups } => TypeView::Named {
            form: Form::Struct,
            name: name@,
            owner: Seq::empty(),
            members: Seq::new(
                fields@.len(),
                |i: int|
                    if 0 <= i < fields@.len() {
                        field_view(
                            fields@[i].0@,
                            type_view(fields@[i].1),
                            group_of(field_groups@, i),
                        )
                    } else {
                        arbitrary()
                    },
            ),
        },
        Type::Enum { name, variants } => TypeView::Named {
            form: Form::Enum,
            name: name@,
            owner: Seq::empty(),
            members: Seq::new(
                variants@.len(),
                |i: int|
                    if 0 <= i < variants@.len() {
                        variant_view(variants@[i].0@, type_views(variants@[i].1@))
                    } else {
                        arbitrary()
                    },
            ),
        },
        Type::Cap { name, fields, owner_module } => TypeView::Named {
            form: Form::Cap,
            name: name@,
            owner: owner_module@,
            members: Seq::new(
                fields@.len(),
                |i: int|
                    if 0 <= i < fields@.len() {
                        field_view(fields@[i].0@, type_view(fields@[i].1), None)
                    } else {
                        arbitrary()
                    },
            ),
        },
        Type::Interface { name, methods } => TypeView::Named {
            form: Form::Interface,
            name: name@,
            owner: Seq::empty(),
            members: Seq::new(
                methods@.len(),
                |i: int|
                    if 0 <= i < methods@.len() {
                        Member {
                            name: methods@[i].name@,
                            types: type_views(methods@[i].params@).push(
                                type_view(methods@[i].return_type),
                            ),
                            group: None,
                            is_view: methods@[i].is_view,
                            is_pure: methods@[i].is_pure,
                        }
                    } else {
                        arbitrary()
                    },
            ),
        },
    }
}

impl View for Type {
    type V = TypeView;

    open spec fn view(&self) -> TypeView {
        type_view(*self)
    }
}

/// Whether every part of the type can be used more than once.
pub open spec fn copyable(t: Type) -> bool
    decreases t,
{
    match t {
        Type::Int
        | Type::UInt
        | Type::Float
        | Type::I32
        | Type::U32
        | Type::U64
        | Type::U128
        | Type::Bool
        | Type::Unit
        | Type::String
        | Type::Address
        | Type::Bytes
        | Type::Json => true,
        Type::Array(e) => copyable(*e),
        Type::SetOf(e) => copyable(*e),
        Type::Dict { key, value } => copyable(*key) && copyable(*value),
        Type::Struct { name, fields, field_groups } => forall|i: int|
            0 <= i < fields@.len() ==> copyable(#[trigger] fields@[i].1),
        Type::Tuple(elems) => forall|i: int| 0 <= i < elems@.len() ==> copyable(#[trigger] elems@[i]),
        Type::Enum { name, variants } => forall|i: int, j: int|
            0 <= i < variants@.len() && 0 <= j < variants@[i].1@.len() ==> copyable(
                #[trigger] variants@[i].1@[j],
            ),
        Type::Interface { name, methods } => true,
        _ => false,
    }
}

/// Whether every struct inside a type, at any depth, has its groups in the normal
/// form: no list at all, or one entry for each field with a group among them.
pub open spec fn normal_groups(t: Type) -> bool
    decreases t,
{
    match t {
        Type::Array(e) => normal_groups(*e),
        Type::SetOf(e) => normal_groups(*e),
        Type::PVec { elem } => normal_groups(*elem),
        Type::Dict { key, value } => normal_groups(*key) && normal_groups(*value),
        Type::MapOf { key, value } => normal_groups(*key) && normal_groups(*value),
        Type::PMap { key, value } => normal_groups(*key) && normal_groups(*value),
        Type::PBTree { key, value } => normal_groups(*key) && normal_groups(*value),
        Type::Tuple(elems) => forall|i: int| 0 <= i < elems@.len() ==> normal_groups(#[trigger] elems@[i]),
        Type::Struct { name, fields, field_groups } => {
            &&& field_groups@.len() == 0 || (field_groups@.len() == fields@.len() && exists|i: int|
                0 <= i < field_groups@.len() && #[trigger] field_groups@[i] is Some)
            &&& forall|i: int| 0 <= i < fields@.len() ==> normal_groups((#[trigger] fields@[i]).1)
        },
        Type::Enum { name, variants } => forall|i: int, j: int|
            0 <= i < variants@.len() && 0 <= j < variants@[i].1@.len() ==> normal_groups(
                #[trigger] variants@[i].1@[j],
            ),
        Type::Cap { name, fields, owner_module } => forall|i: int|
            0 <= i < fields@.len() ==> normal_groups((#[trigger] fields@[i]).1),
        Type::Interface { name, methods } => forall|i: int|
            0 <= i < methods@.len() ==> {
                &&& normal_groups((#[trigger] methods@[i]).return_type)
                &&& forall|j: int|
                    0 <= j < methods@[i].params@.len() ==> normal_groups(#[trigger] methods@[i].params@[j])
            },
        _ => true,
    }
}

/// Whether values of the type can be map keys.
pub open spec fn keyable(t: Type) -> bool
    decreases t,
{
    match t {
        Type::Int
        | Type::I32
        | Type::U32
        | Type::U64
        | Type::U128
        | Type::Bool
        | Type::String
        | Type::Address
        | Type::Bytes => true,
        Type::Array(e) => keyable(*e),
        Type::Struct { name, fields, field_groups } => forall|i: int|
            0 <= i < fields@.len() ==> keyable(#[trigger] fields@[i].1),
        Type::Enum { name, variants } => forall|i: int, j: int|
            0 <= i < variants@.len() && 0 <= j < variants@[i].1@.len() ==> keyable(
                #[trigger] variants@[i].1@[j],
            ),
        _ => false,
    }
}

/// The printed form of a type.
pub open spec fn type_text(t: Type) -> Seq<char>
    decreases t, 0nat,
{
    match t {
        Type::Int => "int"@,
        Type::UInt => "uint"@,
        Type::Float => "float"@,
        Type::I32 => "i32"@,
        Type::U32 => "u32"@,
        Type::U64 => "u64"@,
        Type::U128 => "u128"@,
        Type::Bool => "bool"@,
        Type::Unit => "()"@,
        Type::Resource => "Resource"@,
        Type::String => "string"@,
        Type::Address => "Address"@,
        Type::Bytes => "bytes"@,
        Type::Array(e) => "["@ + type_text(*e) + "]"@,
        Type::SetOf(e) => "set<"@ + type_text(*e) + ">"@,
        Type::Dict { key, value } => "dict<"@ + type_text(*key) + ", "@ + type_text(*value) + ">"@,
        Type::MapOf { key, value } => "map<"@ + type_text(*key) + ", "@ + type_text(*value) + ">"@,
        Type::PMap { key, value } => "pmap<"@ + type_text(*key) + ", "@ + type_text(*value) + ">"@,
        Type::PBTree { key, value } => "pbtree<"@ + type_text(*key) + ", "@ + type_text(*value)
            + ">"@,
        Type::PVec { elem } => "pvec<"@ + type_text(*elem) + ">"@,
        Type::Json => "json"@,
        Type::Struct { name, fields, field_groups } => name@,
        Type::Tuple(elems) => "("@ + types_text(elems@, elems@.len()) + ")"@,
        Type::Enum { name, variants } => name@,
        Type::Cap { name, fields, owner_module } => name@,
        Type::Interface { name, methods } => name@,
    }
}

/// The printed forms of the first `n` types, separated by commas.
pub open spec fn types_text(s: Seq<Type>, n: nat) -> Seq<char>
    decreases s, n,
    when n <= s.len()
{
    if n == 0 {
        Seq::empty()
    } else if n == 1 {
        type_text(s[0])
    } else {
        types_text(s, (n - 1) as nat) + ", "@ + type_text(s[n - 1])
    }
}

impl Type {
    #[verifier::loop_isolation(false)]
    #[verifier::rlimit(30)]
    pub fn is_copy(&self) -> (r: bool)
        ensures
            r == copyable(*self),
        decreases self,
    {
        match self {
            Type::Int
            | Type::UInt
            | Type::Float
            | Type::I32
            | Type::U32
            | Type::U64
            | Type::U128
            | Type::Bool
            | Type::Unit
            | Type::String
            | Type::Address
            | Type::Bytes
            | Type::Json => true,
            Type::Array(e) => e.is_copy(),
            Type::SetOf(e) => e.is_copy(),
            Type::Dict { key, value } => key.is_copy() && value.is_copy(),
            Type::Struct { name: _, fields, field_groups: _ } => {
                let mut i: usize = 0;
                while i < fields.len()
                    invariant
                        i <= fields@.len(),
                        forall|j: int| 0 <= j < i ==> copyable(#[trigger] fields@[j].1),
                    decreases fields@.len() - i,
                {
                    if !fields[i].1.is_copy() {
                        return false;
                    }
                    i = i + 1;
                }
                true
            },
            Type::Tuple(elems) => {
                let mut i: usize = 0;
                while i < elems.len()
                    invariant
                        i <= elems@.len(),
                        forall|j: int| 0 <= j < i ==> copyable(#[trigger] elems@[j]),
                    decreases elems@.len() - i,
                {
                    if !elems[i].is_copy() {
                        return false;
                    }
                    i = i + 1;
                }
                true
            },
            Type::Enum { name: _, variants } => {
                let mut i: usize = 0;
                while i < variants.len()
                    invariant
                        i <= variants@.len(),
                        forall|k: int, j: int|
                            0 <= k < i && 0 <= j < variants@[k].1@.len() ==> copyable(
                                #[trigger] variants@[k].1@[j],
                            ),
                    decreases variants@.len() - i,
                {
                    let payload = &variants[i].1;
                    let mut j: usize = 0;
                    while j < payload.len()
                        invariant
                            i < variants@.len(),
                            payload == variants@[i as int].1,
                            j <= payload@.len(),
                            forall|k: int| 0 <= k < j ==> copyable(#[trigger] payload@[k]),
                        decreases payload@.len() - j,
                    {
                        if !payload[j].is_copy() {
                            assert(!copyable(variants@[i as int].1@[j as int]));
                            return false;
                        }
                        j = j + 1;
                    }
                    i = i + 1;
                }
                true
            },
            Type::Interface { name: _, methods: _ } => true,
            _ => false,
        }
    }

    #[verifier::loop_isolation(false)]
    #[verifier::rlimit(30)]
    pub fn is_keyable(&self) -> (r: bool)
        ensures
            r == keyable(*self),
        decreases self,
    {
        match self {
            Type::Int
            | Type::I32
            | Type::U32
            | Type::U64
            | Type::U128
            | Type::Bool
            | Type::String
            | Type::Address
            | Type::Bytes => true,
            Type::Array(e) => e.is_keyable(),
            Type::Struct { name: _, fields, field_groups: _ } => {
                let mut i: usize = 0;
                while i < fields.len()
                    invariant
                        i <= fields@.len(),
                        forall|j: int| 0 <= j < i ==> keyable(#[trigger] fields@[j].1),
                    decreases fields@.len() - i,
                {
                    if !fields[i].1.is_keyable() {
                        return false;
                    }
                    i = i + 1;
                }
                true
            },
            Type::Enum { name: _, variants } => {
                let mut i: usize = 0;
                while i < variants.len()
                    invariant
                        i <= variants@.len(),
                        forall|k: int, j: int|
                            0 <= k < i && 0 <= j < variants@[k].1@.len() ==> keyable(
                                #[trigger] variants@[k].1@[j],
                            ),
                    decreases variants@.len() - i,
                {
                    let payload = &variants[i].1;
                    let mut j: usize = 0;
                    while j < payload.len()
                        invariant
                            i < variants@.len(),
                            payload == variants@[i as int].1,
                            j <= payload@.len(),
                            forall|k: int| 0 <= k < j ==> keyable(#[trigger] payload@[k]),
                        decreases payload@.len() - j,
                    {
                        if !payload[j].is_keyable() {
                            assert(!keyable(variants@[i as int].1@[j as int]));
                            return false;
                        }
                        j = j + 1;
                    }
                    i = i + 1;
                }
                true
            },
            _ => false,
        }
    }

    /// The printed form.
    #[verifier::loop_isolation(false)]
    #[verifier::rlimit(30)]
    pub fn to_string(&self) -> (r: std::string::String)
        ensures
            r@ == type_text(*self),
        decreases self, 0nat,
    {
        match self {
            Type::Int => text("int"),
            Type::UInt => text("uint"),
            Type::Float => text("float"),
            Type::I32 => text("i32"),
            Type::U32 => text("u32"),
            Type::U64 => text("u64"),
            Type::U128 => text("u128"),
            Type::Bool => text("bool"),
            Type::Unit => text("()"),
            Type::Resource => text("Resource"),
            Type::String => text("string"),
            Type::Address => text("Address"),
            Type::Bytes => text("bytes"),
            Type::Json => text("json"),
            Type::Array(e) => concat3("[", e.to_string().as_str(), "]"),
            Type::SetOf(e) => concat3("set<", e.to_string().as_str(), ">"),
            Type::PVec { elem } => concat3("pvec<", elem.to_string().as_str(), ">"),
            Type::Dict { key, value } => {
                let k = key.to_string();
                let v = value.to_string();
                join_pair("dict<", k.as_str(), v.as_str())
            },
            Type::MapOf { key, value } => {
                let k = key.to_string();
                let v = value.to_string();
                join_pair("map<", k.as_str(), v.as_str())
            },
            Type::PMap { key, value } => {
                let k = key.to_string();
                let v = value.to_string();
                join_pair("pmap<", k.as_str(), v.as_str())
            },
            Type::PBTree { key, value } => {
                let k = key.to_string();
                let v = value.to_string();
                join_pair("pbtree<", k.as_str(), v.as_str())
            },
            Type::Tuple(elems) => {
                let mut r = text("(");
                let ghost open = r@;
                let mut i: usize = 0;
                while i < elems.len()
                    invariant
                        i <= elems@.len(),
                        r@ == open + types_text(elems@, i as nat),
                    decreases elems@.len() - i,
                {
                    if i > 0 {
                        r.append(", ");
                    }
                    let t = elems[i].to_string();
                    r.append(t.as_str());
                    i = i + 1;
                    assert(r@ =~= open + types_text(elems@, i as nat));
                }
                r.append(")");
                r
            },
            Type::Struct { name, fields: _, field_groups: _ } => name.clone(),
            Type::Enum { name, variants: _ } => name.clone(),
            Type::Cap { name, fields: _, owner_module: _ } => name.clone(),
            Type::Interface { name, methods: _ } => name.clone(),
        }
    }
}

fn join_pair(head: &str, key: &str, value: &str) -> (r: String)
    ensures
        r@ == head@ + key@ + ", "@ + value@ + ">"@,
{
    let mut r = concat3(head, key, ", ");
    r.append(value);
    r.append(">");
    r
}

} // verus!
