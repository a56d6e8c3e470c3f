//! Abstract syntax tree for the Yarrow language.
//!
//! Yarrow is stack based: values are pushed and words pop operands. The
//! parser keeps an operand stack and emits one statement per region of it.

use vstd::prelude::*;
use crate::diagnostics::span::Span;
use crate::text::str_eq;
use crate::token::Location;

verus! {

#[derive(Debug)]
pub struct Program {
    pub items: Vec<Stmt>,
}

#[derive(Debug, Clone, Copy, PartialEq, Eq, Structural)]
pub enum Mutability {
    Mutable,
    Const,
    Static,
}

#[derive(Debug, Clone, Copy, PartialEq, Eq, Structural)]
pub enum Visibility {
    Public,
    Private,
}

#[derive(Debug)]
pub enum TypeKind {
    Named(String),
    Primitive(Primitive),
    Array { element: Box<Type>, size: Option<u64> },
    List { element: Box<Type> },
    Hashmap { key: Box<Type>, value: Box<Type> },
    Reference { inner: Box<Type> },
    Pointer { inner: Box<Type> },
    Union(Vec<Type>),
}

#[derive(Debug, Clone, Copy, PartialEq, Eq, Structural)]
pub enum Primitive {
    I8,
    I16,
    I32,
    I64,
    I128,
    U8,
    U16,
    U32,
    U64,
    U128,
    F16,
    F32,
    F64,
    F128,
    String,
    Rune,
    Bool,
    Void,
    Error,
    Type,
}

/// The primitive a type name denotes.
pub open spec fn primitive_named(name: Seq<char>) -> Option<Primitive> {
    if name == "i8"@ {
        Some(Primitive::I8)
    } else if name == "i16"@ {
        Some(Primitive::I16)
    } else if name == "i32"@ {
        Some(Primitive::I32)
    } else if name == "i64"@ {
        Some(Primitive::I64)
    } else if name == "i128"@ {
        Some(Primitive::I128)
    } else if name == "u8"@ {
        Some(Primitive::U8)
    } else if name == "u16"@ {
        Some(Primitive::U16)
    } else if name == "u32"@ {
        Some(Primitive::U32)
    } else if name == "u64"@ {
        Some(Primitive::U64)
    } else if name == "u128"@ {
        Some(Primitive::U128)
    } else if name == "f16"@ {
        Some(Primitive::F16)
    } else if name == "f32"@ {
        Some(Primitive::F32)
    } else if name == "f64"@ {
        Some(Primitive::F64)
    } else if name == "f128"@ {
        Some(Primitive::F128)
    } else if name == "string"@ {
        Some(Primitive::String)
    } else if name == "rune"@ {
        Some(Primitive::Rune)
    } else if name == "bool"@ {
        Some(Primitive::Bool)
    } else if name == "void"@ {
        Some(Primitive::Void)
    } else if name == "error"@ {
        Some(Primitive::Error)
    } else if name == "type"@ {
        Some(Primitive::Type)
    } else {
        None
    }
}

impl Primitive {
    pub fn parse_name(name: &str) -> (r: Option<Self>)
        ensures
            r == primitive_named(name@),
    {
        if str_eq(name, "i8") {
            Some(Primitive::I8)
        } else if str_eq(name, "i16") {
            Some(Primitive::I16)
        } else if str_eq(name, "i32") {
            Some(Primitive::I32)
        } else if str_eq(name, "i64") {
            Some(Primitive::I64)
        } else if str_eq(name, "i128") {
            Some(Primitive::I128)
        } else if str_eq(name, "u8") {
            Some(Primitive::U8)
        } else if str_eq(name, "u16") {
            Some(Primitive::U16)
        } else if str_eq(name, "u32") {
            Some(Primitive::U32)
        } else if str_eq(name, "u64") {
            Some(Primitive::U64)
        } else if str_eq(name, "u128") {
            Some(Primitive::U128)
        } else if str_eq(name, "f16") {
            Some(Primitive::F16)
        } else if str_eq(name, "f32") {
            Some(Primitive::F32)
        } else if str_eq(name, "f64") {
            Some(Primitive::F64)
        } else if str_eq(name, "f128") {
            Some(Primitive::F128)
        } else if str_eq(name, "string") {
            Some(Primitive::String)
        } else if str_eq(name, "rune") {
            Some(Primitive::Rune)
        } else if str_eq(name, "bool") {
            Some(Primitive::Bool)
        } else if str_eq(name, "void") {
            Some(Primitive::Void)
        } else if str_eq(name, "error") {
            Some(Primitive::Error)
        } else if str_eq(name, "type") {
            Some(Primitive::Type)
        } else {
            None
        }
    }
}

#[derive(Debug)]
pub struct Type {
    pub kind: TypeKind,
    pub location: Location,
}

impl Type {
    /// A deep copy (a derived `Clone` that Verus can check for termination).
    #[verifier::loop_isolation(false)]
    pub fn duplicate(&self) -> (r: Type)
        ensures
            r.location == self.location,
        decreases self,
    {
        let kind = match &self.kind {
            TypeKind::Named(n) => TypeKind::Named(n.clone()),
            TypeKind::Primitive(p) => TypeKind::Primitive(*p),
            TypeKind::Array { element, size } => TypeKind::Array {
                element: Box::new(element.duplicate()),
                size: *size,
            },
            TypeKind::List { element } => TypeKind::List { element: Box::new(element.duplicate()) },
            TypeKind::Hashmap { key, value } => TypeKind::Hashmap {
                key: Box::new(key.duplicate()),
                value: Box::new(value.duplicate()),
            },
            TypeKind::Reference { inner } => TypeKind::Reference {
                inner: Box::new(inner.duplicate()),
            },
            TypeKind::Pointer { inner } => TypeKind::Pointer { inner: Box::new(inner.duplicate()) },
            TypeKind::Union(members) => {
                let mut out: Vec<Type> = Vec::new();
                let mut i: usize = 0;
                while i < members.len()
                    invariant
                        0 <= i <= members@.len(),
                        out@.len() == i,
                    decreases members@.len() - i,
                {
                    let t = members[i].duplicate();
                    out.push(t);
                    i += 1;
                }
                TypeKind::Union(out)
            },
        };
        Type { kind, location: self.location }
    }
}

#[derive(Debug, Clone, Copy, PartialEq, Eq, Structural)]
pub enum BinOp {
    Plus,
    Minus,
    Mul,
    Div,
    Fdiv,
    Mod,
    Pow,
    Concat,
    Eq,
    Ne,
    Gt,
    Gte,
    Lt,
    Lte,
    And,
    Or,
    Xor,
    Lshift,
    Rshift,
}

#[derive(Debug, Clone, Copy, PartialEq, Eq, Structural)]
pub enum UnOp {
    Not,
}

/// Operators that act on the runtime stack when the operand stack does not
/// hold enough values to apply them at parse time.
#[derive(Debug, Clone, Copy, PartialEq, Eq, Structural)]
pub enum StackOp {
    Dup,
    Swap,
    Rot,
    Unrot,
    Pop,
    Drop,
}

#[derive(Debug)]
pub enum Expr {
    Integer { value: String },
    Float { value: String },
    String { value: String },
    Rune { value: String },
    Bool { value: bool },
    Variable { name: String },
    Member { base: Box<Expr>, member: String },
    /// A type used as a value (the `i32` in `myVar typeof i32 ==`).
    TypeValue { name: String },
    /// `@name`: a compiler builtin.
    Builtin { name: String },
    Binary { op: BinOp, left: Box<Expr>, right: Box<Expr> },
    Unary { op: UnOp, operand: Box<Expr> },
    Call { target: Box<Expr> },
    Unwrap { inner: Box<Expr> },
    Typeof { inner: Box<Expr> },
    Borrow { inner: Box<Expr> },
    /// `addr load`: read through a typed pointer.
    Load { inner: Box<Expr> },
    /// `addr value store`: write through a typed pointer.
    Store { addr: Box<Expr>, value: Box<Expr> },
    /// A binary operator whose operands come from the runtime stack.
    ApplyBin(BinOp),
    ApplyUn(UnOp),
    ApplyTypeof,
    ApplyBorrow,
    ApplyLoad,
    StackOp(StackOp),
    Array(Vec<Expr>),
    List(Vec<Expr>),
    MapLiteral(Vec<(Expr, Expr)>),
    /// Several operand-stack values left side by side, with their spans.
    Sequence(Vec<(Expr, Span)>),
}

/// `b` is a copy of `a`: the same variant with equal operators, names and
/// literal texts, and copies of its sub-expressions.
pub open spec fn same_expr(a: Expr, b: Expr) -> bool
    decreases a,
{
    match a {
        Expr::Member { base, member } => b matches Expr::Member { base: b2, member: m2 } && member == m2
            && same_expr(*base, *b2),
        Expr::Binary { op, left, right } => b matches Expr::Binary { op: o2, left: l2, right: r2 } && op
            == o2 && same_expr(*left, *l2) && same_expr(*right, *r2),
        Expr::Unary { op, operand } => b matches Expr::Unary { op: o2, operand: x2 } && op == o2
            && same_expr(*operand, *x2),
        Expr::Call { target } => b matches Expr::Call { target: t2 } && same_expr(*target, *t2),
        Expr::Unwrap { inner } => b matches Expr::Unwrap { inner: i2 } && same_expr(*inner, *i2),
        Expr::Typeof { inner } => b matches Expr::Typeof { inner: i2 } && same_expr(*inner, *i2),
        Expr::Borrow { inner } => b matches Expr::Borrow { inner: i2 } && same_expr(*inner, *i2),
        Expr::Load { inner } => b matches Expr::Load { inner: i2 } && same_expr(*inner, *i2),
        Expr::Store { addr, value } => b matches Expr::Store { addr: a2, value: v2 } && same_expr(*addr, *a2)
            && same_expr(*value, *v2),
        Expr::Array(xs) => b matches Expr::Array(ys) && same_exprs(xs@, ys@),
        Expr::List(xs) => b matches Expr::List(ys) && same_exprs(xs@, ys@),
        Expr::MapLiteral(xs) => b matches Expr::MapLiteral(ys) && xs@.len() == ys@.len() && forall|i: int|
            0 <= i < xs@.len() ==> same_expr(#[trigger] xs@[i].0, ys@[i].0) && same_expr(xs@[i].1, ys@[i].1),
        Expr::Sequence(xs) => b matches Expr::Sequence(ys) && xs@.len() == ys@.len() && forall|i: int|
            0 <= i < xs@.len() ==> same_expr(#[trigger] xs@[i].0, ys@[i].0) && xs@[i].1 == ys@[i].1,
        _ => a == b,
    }
}

/// `ys` copies `xs` element by element.
pub open spec fn same_exprs(xs: Seq<Expr>, ys: Seq<Expr>) -> bool
    decreases xs,
{
    xs.len() == ys.len() && forall|i: int| 0 <= i < xs.len() ==> same_expr(#[trigger] xs[i], ys[i])
}

impl Expr {
    pub fn variable(name: String) -> (r: Expr)
        ensures
            r matches Expr::Variable { name: n } && n@ == name@,
    {
        Expr::Variable { name }
    }

    /// A deep copy (a derived `Clone` that Verus can check for termination).
    #[verifier::loop_isolation(false)]
    pub fn duplicate(&self) -> (r: Expr)
        ensures
            same_expr(*self, r),
        decreases self,
    {
        match self {
            Expr::Integer { value } => Expr::Integer { value: value.clone() },
            Expr::Float { value } => Expr::Float { value: value.clone() },
            Expr::String { value } => Expr::String { value: value.clone() },
            Expr::Rune { value } => Expr::Rune { value: value.clone() },
            Expr::Bool { value } => Expr::Bool { value: *value },
            Expr::Variable { name } => Expr::Variable { name: name.clone() },
            Expr::Member { base, member } => Expr::Member {
                base: Box::new(base.duplicate()),
                member: member.clone(),
            },
            Expr::TypeValue { name } => Expr::TypeValue { name: name.clone() },
            Expr::Builtin { name } => Expr::Builtin { name: name.clone() },
            Expr::Binary { op, left, right } => Expr::Binary {
                op: *op,
                left: Box::new(left.duplicate()),
                right: Box::new(right.duplicate()),
            },
            Expr::Unary { op, operand } => Expr::Unary {
                op: *op,
                operand: Box::new(operand.duplicate()),
            },
            Expr::Call { target } => Expr::Call { target: Box::new(target.duplicate()) },
            Expr::Unwrap { inner } => Expr::Unwrap { inner: Box::new(inner.duplicate()) },
            Expr::Typeof { inner } => Expr::Typeof { inner: Box::new(inner.duplicate()) },
            Expr::Borrow { inner } => Expr::Borrow { inner: Box::new(inner.duplicate()) },
            Expr::Load { inner } => Expr::Load { inner: Box::new(inner.duplicate()) },
            Expr::Store { addr, value } => Expr::Store {
                addr: Box::new(addr.duplicate()),
                value: Box::new(value.duplicate()),
            },
            Expr::ApplyBin(op) => Expr::ApplyBin(*op),
            Expr::ApplyUn(op) => Expr::ApplyUn(*op),
            Expr::ApplyTypeof => Expr::ApplyTypeof,
            Expr::ApplyBorrow => Expr::ApplyBorrow,
            Expr::ApplyLoad => Expr::ApplyLoad,
            Expr::StackOp(op) => Expr::StackOp(*op),
            Expr::Array(items) => Expr::Array(duplicate_exprs(items)),
            Expr::List(items) => Expr::List(duplicate_exprs(items)),
            Expr::MapLiteral(pairs) => {
                let mut out: Vec<(Expr, Expr)> = Vec::new();
                let mut i: usize = 0;
                while i < pairs.len()
                    invariant
                        0 <= i <= pairs@.len(),
                        out@.len() == i,
                        forall|j: int| 0 <= j < i ==> same_expr(#[trigger] pairs@[j].0, out@[j].0) && same_expr(
                            pairs@[j].1,
                            out@[j].1,
                        ),
                    decreases pairs@.len() - i,
                {
                    let k = pairs[i].0.duplicate();
                    let v = pairs[i].1.duplicate();
                    out.push((k, v));
                    i += 1;
                }
                Expr::MapLiteral(out)
            },
            Expr::Sequence(items) => {
                let mut out: Vec<(Expr, Span)> = Vec::new();
                let mut i: usize = 0;
                while i < items.len()
                    invariant
                        0 <= i <= items@.len(),
                        out@.len() == i,
                        forall|j: int| 0 <= j < i ==> same_expr(#[trigger] items@[j].0, out@[j].0) && items@[j].1
                            == out@[j].1,
                    decreases items@.len() - i,
                {
                    let e = items[i].0.duplicate();
                    out.push((e, items[i].1));
                    i += 1;
                }
                Expr::Sequence(out)
            },
        }
    }
}

/// A deep copy of a vector of expressions.
pub fn duplicate_exprs(items: &Vec<Expr>) -> (r: Vec<Expr>)
    ensures
        r@.len() == items@.len(),
        same_exprs(items@, r@),
    decreases items,
{
    let mut out: Vec<Expr> = Vec::new();
    let mut i: usize = 0;
    while i < items.len()
        invariant
            0 <= i <= items@.len(),
            out@.len() == i,
            forall|j: int| 0 <= j < i ==> same_expr(#[trigger] items@[j], out@[j]),
        decreases items@.len() - i,
    {
        let e = items[i].duplicate();
        out.push(e);
        i += 1;
    }
    out
}

#[derive(Debug)]
pub struct Field {
    pub name: String,
    pub ty: Type,
    pub visibility: Option<Visibility>,
}

#[derive(Debug, Clone, Copy, PartialEq, Eq, Structural)]
pub enum ParamModifier {
    Copy,
    Mutable,
}

#[derive(Debug)]
pub struct Parameter {
    pub ty: Type,
    pub modifier: Option<ParamModifier>,
}

#[derive(Debug)]
pub struct Function {
    pub name: String,
    pub visibility: Option<Visibility>,
    pub params: Vec<Parameter>,
    pub body: Vec<Stmt>,
    pub returns: Vec<Type>,
    pub is_unsafe: bool,
}

#[derive(Debug)]
pub struct StructDecl {
    pub name: String,
    pub visibility: Option<Visibility>,
    pub fields: Vec<Field>,
}

#[derive(Debug)]
pub struct Implement {
    pub target: String,
    pub functions: Vec<Function>,
}

/// An enum member and its optional explicit value (raw integer lexeme).
#[derive(Debug)]
pub struct EnumMember {
    pub name: String,
    pub value: Option<String>,
}

#[derive(Debug)]
pub struct EnumDecl {
    pub name: String,
    pub underlying: Option<Type>,
    pub members: Vec<EnumMember>,
}

/// `Name [Inject.Path] error MEMBER ... end`.
#[derive(Debug)]
pub struct ErrorDecl {
    pub name: String,
    pub inject: Option<String>,
    pub members: Vec<String>,
}

#[derive(Debug)]
pub struct UnionDecl {
    pub name: String,
    pub types: Vec<Type>,
}

/// The condition of a `match` case: a boolean expression or a member type.
#[derive(Debug)]
pub enum MatchCaseKind {
    Condition(Expr),
    Type(Type),
}

#[derive(Debug)]
pub struct MatchCase {
    pub kind: MatchCaseKind,
    pub body: Vec<Stmt>,
}

/// A statement and the source range it came from.
#[derive(Debug)]
pub struct Stmt {
    pub kind: StmtKind,
    pub span: Span,
}

impl Stmt {
    pub fn new(kind: StmtKind, span: Span) -> (r: Self)
        ensures
            r == (Stmt { kind, span }),
    {
        Stmt { kind, span }
    }
}

#[derive(Debug)]
pub enum StmtKind {
    Expr(Expr),
    VarDecl { name: String, mutability: Mutability, ty: Type, value: Option<Expr> },
    /// `value target set`.
    SetValue { target: Expr, value: Option<Expr> },
    Function(Function),
    Struct(StructDecl),
    Implement(Implement),
    Enum(EnumDecl),
    Union(UnionDecl),
    Error(ErrorDecl),
    Require { path: String, alias: Option<String> },
    If { condition: Expr, then_branch: Vec<Stmt>, else_branch: Vec<Stmt> },
    /// Condition form (`i 3 < for ... end`) or iterable form (`items for ... end`).
    For { source: Expr, body: Vec<Stmt> },
    Match { value: Expr, cases: Vec<MatchCase>, else_branch: Vec<Stmt> },
    Defer { body: Vec<Stmt> },
    /// `expression handle <body> end`; a `fallback` in the body is pulled out.
    Handle { body: Vec<Stmt>, fallback: Option<Expr> },
    /// `source target move`.
    Move { target: String, source: Expr },
    Fallback { value: Option<Expr> },
    Return { value: Option<Expr> },
    Unsafe { body: Vec<Stmt> },
    Break,
    Continue,
}

/// Whether `s` declares a function named `name`.
pub open spec fn is_function_named(s: Stmt, name: Seq<char>) -> bool {
    s.kind matches StmtKind::Function(f) && f.name@ == name
}

/// Whether some top-level item is a function named `name`.
pub open spec fn has_entry_spec(items: Seq<Stmt>, name: Seq<char>) -> bool {
    exists|i: int| 0 <= i < items.len() && is_function_named(#[trigger] items[i], name)
}

impl Program {
    /// True when a top-level function named `name` exists.
    pub fn has_entry(&self, name: &str) -> (r: bool)
        ensures
            r == has_entry_spec(self.items@, name@),
    {
        match self.entry_function(name) {
            Some(_) => true,
            None => false,
        }
    }

    /// Index and span of the first top-level function named `name`.
    pub fn entry_function(&self, name: &str) -> (r: Option<(usize, Span)>)
        ensures
            match r {
                Some((i, span)) => i < self.items@.len() && self.items@[i as int].span == span
                    && is_function_named(self.items@[i as int], name@)
                    && forall|j: int| 0 <= j < i ==> !is_function_named(#[trigger] self.items@[j], name@),
                None => !has_entry_spec(self.items@, name@),
            },
    {
        let mut i: usize = 0;
        while i < self.items.len()
            invariant
                0 <= i <= self.items@.len(),
                forall|j: int| 0 <= j < i ==> !is_function_named(#[trigger] self.items@[j], name@),
            decreases self.items@.len() - i,
        {
            match &self.items[i].kind {
                StmtKind::Function(f) => {
                    if str_eq(f.name.as_str(), name) {
                        return Some((i, self.items[i].span));
                    }
                },
                _ => {},
            }
            i += 1;
        }
        None
    }
}

} // verus!
