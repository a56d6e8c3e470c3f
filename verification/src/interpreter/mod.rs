//! The AST interpreter's logic: its errors, runtime value kinds, operators,
//! stack shuffles, and the tables of a loaded program.

pub mod operators;
pub mod stack_ops;
pub mod name_map;
pub mod registry;
pub mod machine;

pub use machine::{EvalContext, FuncEntry, Interpreter, LoadedModules};

use vstd::prelude::*;
use crate::compiler::errors::{is_new_error, CompileError};
use crate::compiler::lowering::int_literal_ty_spec;
use crate::compiler::types::{elem_size_of, kind_code_of, primitive_ty_of, scalar_ty_of};
use crate::diagnostics::Span;
use crate::parser::ast::{Primitive, Type, TypeKind};
use crate::text::{chars_of, owned, push_str, str_eq, string_of_chars};

verus! {

/// Error while interpreting an already-checked program.
#[derive(Debug)]
pub struct InterpretError {
    pub message: String,
    pub code: String,
    pub span: Span,
}

impl InterpretError {
    pub fn new(message: String, span: Span, code: String) -> (r: Self)
        ensures
            r.message@ == message@,
            r.code@ == code@,
            r.span == span,
    {
        InterpretError { message, code, span }
    }

    /// `E393`: a construct the interpreter does not run yet.
    pub fn unsupported(what: &str, span: Span) -> (r: Self)
        ensures
            r.message@ == "interpreter does not support "@ + what@ + " yet"@,
            r.code@ == "E393"@,
            r.span == span,
    {
        let mut m = owned("interpreter does not support ");
        push_str(&mut m, what);
        push_str(&mut m, " yet");
        Self::new(m, span, owned("E393"))
    }

    /// The compile error with this message, code and primary span.
    pub fn into_compile_error(self) -> (r: CompileError)
        ensures
            is_new_error(*r.diagnostic, self.message@, self.span, self.code@),
    {
        CompileError::new(self.message, self.span, self.code)
    }
}


/// Kind tag of fallible error envelopes on the interpreter stack.
pub const KIND_ERROR: u64 = 0x51;

/// A union member's type as the interpreter compares it.
#[derive(Debug, PartialEq, Eq)]
pub enum MemberTy {
    Primitive(u64),
    Named(String),
    String,
}

/// The runtime kind of a primitive type name (`void` reads as `i64`).
pub open spec fn primitive_name_kind(name: Seq<char>) -> Option<u64> {
    if name == "bool"@ {
        Some(0u64)
    } else if name == "i8"@ {
        Some(1u64)
    } else if name == "i16"@ {
        Some(2u64)
    } else if name == "i32"@ {
        Some(3u64)
    } else if name == "i64"@ {
        Some(4u64)
    } else if name == "u8"@ {
        Some(6u64)
    } else if name == "u16"@ {
        Some(7u64)
    } else if name == "u32"@ {
        Some(8u64)
    } else if name == "u64"@ {
        Some(9u64)
    } else if name == "rune"@ {
        Some(11u64)
    } else if name == "f16"@ {
        Some(12u64)
    } else if name == "f32"@ {
        Some(13u64)
    } else if name == "f64"@ {
        Some(14u64)
    } else if name == "string"@ {
        Some(16u64)
    } else if name == "void"@ {
        Some(4u64)
    } else {
        None
    }
}

/// Runtime kind codes of primitive type names, aligned with the compiler's
/// kind codes.
pub fn primitive_kind_code(name: &str) -> (r: Option<u64>)
    ensures
        r == primitive_name_kind(name@),
{
    if str_eq(name, "bool") {
        Some(0)
    } else if str_eq(name, "i8") {
        Some(1)
    } else if str_eq(name, "i16") {
        Some(2)
    } else if str_eq(name, "i32") {
        Some(3)
    } else if str_eq(name, "i64") {
        Some(4)
    } else if str_eq(name, "u8") {
        Some(6)
    } else if str_eq(name, "u16") {
        Some(7)
    } else if str_eq(name, "u32") {
        Some(8)
    } else if str_eq(name, "u64") {
        Some(9)
    } else if str_eq(name, "rune") {
        Some(11)
    } else if str_eq(name, "f16") {
        Some(12)
    } else if str_eq(name, "f32") {
        Some(13)
    } else if str_eq(name, "f64") {
        Some(14)
    } else if str_eq(name, "string") {
        Some(16)
    } else if str_eq(name, "void") {
        Some(4)
    } else {
        None
    }
}

/// The runtime kind of a primitive; `void` reads as `i64` and `error` is
/// the error-envelope kind; `None` for the 128-bit primitives and `type`.
pub open spec fn primitive_kind(p: Primitive) -> Option<u64> {
    match p {
        Primitive::Bool => Some(0u64),
        Primitive::I8 => Some(1u64),
        Primitive::I16 => Some(2u64),
        Primitive::I32 => Some(3u64),
        Primitive::I64 => Some(4u64),
        Primitive::U8 => Some(6u64),
        Primitive::U16 => Some(7u64),
        Primitive::U32 => Some(8u64),
        Primitive::U64 => Some(9u64),
        Primitive::Rune => Some(11u64),
        Primitive::F16 => Some(12u64),
        Primitive::F32 => Some(13u64),
        Primitive::F64 => Some(14u64),
        Primitive::String => Some(16u64),
        Primitive::Void => Some(4u64),
        Primitive::Error => Some(KIND_ERROR),
        _ => None,
    }
}

pub fn primitive_to_kind(p: Primitive) -> (r: Option<u64>)
    ensures
        r == primitive_kind(p),
{
    match p {
        Primitive::Bool => Some(0),
        Primitive::I8 => Some(1),
        Primitive::I16 => Some(2),
        Primitive::I32 => Some(3),
        Primitive::I64 => Some(4),
        Primitive::U8 => Some(6),
        Primitive::U16 => Some(7),
        Primitive::U32 => Some(8),
        Primitive::U64 => Some(9),
        Primitive::Rune => Some(11),
        Primitive::F16 => Some(12),
        Primitive::F32 => Some(13),
        Primitive::F64 => Some(14),
        Primitive::String => Some(16),
        Primitive::Void => Some(4),
        Primitive::Error => Some(KIND_ERROR),
        _ => None,
    }
}

/// The interpreter's kind of every primitive with a physical type agrees
/// with the compiler's kind code of that type, except `void` (an `i64`
/// slot here) and `error` (the envelope kind here).
pub proof fn lemma_primitive_kinds_agree(p: Primitive)
    requires
        p != Primitive::Void,
        p != Primitive::Error,
    ensures
        primitive_ty_of(p) matches Some(t) ==> primitive_kind(p) == Some(kind_code_of(t)),
        primitive_ty_of(p) is None ==> primitive_kind(p) is None,
{
}

/// Byte size of a container element by the low byte of its kind.
pub open spec fn kind_size(kind: u64) -> u32 {
    let k = kind & 0xff;
    if k == 0 || k == 1 || k == 6 {
        1
    } else if k == 2 || k == 7 || k == 12 {
        2
    } else if k == 3 || k == 8 || k == 11 || k == 13 {
        4
    } else {
        8
    }
}

pub fn kind_elem_size(kind: u64) -> (r: u32)
    ensures
        r == kind_size(kind),
{
    let k = kind & 0xff;
    if k == 0 || k == 1 || k == 6 {
        1
    } else if k == 2 || k == 7 || k == 12 {
        2
    } else if k == 3 || k == 8 || k == 11 || k == 13 {
        4
    } else {
        8
    }
}

/// For scalar kinds the element size is the compiler's size of the type,
/// except that 128-bit scalars occupy a pointer-sized (8-byte) slot.
pub proof fn lemma_kind_sizes_agree(code: u64)
    requires
        code <= 15,
    ensures
        code != 5 && code != 10 && code != 15 ==> kind_size(code) == elem_size_of(
            scalar_ty_of(code as u8),
        ),
        code == 5 || code == 10 || code == 15 ==> kind_size(code) == 8,
{
    assert(code & 0xff == code) by (bit_vector)
        requires
            code <= 15,
    ;
}

/// The kind of the smallest type that fits an integer literal.
pub open spec fn int_literal_kind_spec(n: int) -> u64 {
    if n >= 0 {
        if n <= u8::MAX {
            6
        } else if n <= u16::MAX {
            7
        } else if n <= u32::MAX {
            8
        } else {
            9
        }
    } else if n >= i8::MIN {
        1
    } else if n >= i16::MIN {
        2
    } else if n >= i32::MIN {
        3
    } else {
        4
    }
}

pub fn int_literal_kind(n: i128) -> (r: u64)
    ensures
        r == int_literal_kind_spec(n as int),
{
    if n >= 0 {
        if n <= 0xff {
            6
        } else if n <= 0xffff {
            7
        } else if n <= 0xffff_ffff {
            8
        } else {
            9
        }
    } else if n >= -0x80 {
        1
    } else if n >= -0x8000 {
        2
    } else if n >= -0x8000_0000 {
        3
    } else {
        4
    }
}

/// The interpreter types an integer literal exactly as the compiler does.
pub proof fn lemma_int_literal_kind_agrees(n: int)
    ensures
        int_literal_kind_spec(n) == kind_code_of(int_literal_ty_spec(n)),
{
}

/// How a union member type reads: `string` (either spelling), a primitive
/// kind (`i64` for primitives without one), a name, through references;
/// anything else reads as `i64`.
pub open spec fn member_ty_spec(t: Type) -> MemberTy
    decreases t,
{
    match t.kind {
        TypeKind::Primitive(Primitive::String) => MemberTy::String,
        TypeKind::Named(n) => if n@ == "string"@ {
            MemberTy::String
        } else {
            MemberTy::Named(n)
        },
        TypeKind::Primitive(p) => MemberTy::Primitive(
            match primitive_kind(p) {
                Some(k) => k,
                None => 4,
            },
        ),
        TypeKind::Reference { inner } => member_ty_spec(*inner),
        _ => MemberTy::Primitive(4),
    }
}

/// Same member type, names compared by their characters.
pub open spec fn same_member(a: MemberTy, b: MemberTy) -> bool {
    match (a, b) {
        (MemberTy::Named(x), MemberTy::Named(y)) => x@ == y@,
        _ => a == b,
    }
}

pub fn ast_member_ty(t: &Type) -> (r: MemberTy)
    ensures
        same_member(r, member_ty_spec(*t)),
    decreases t,
{
    match &t.kind {
        TypeKind::Primitive(Primitive::String) => MemberTy::String,
        TypeKind::Named(n) => if str_eq(n.as_str(), "string") {
            MemberTy::String
        } else {
            MemberTy::Named(n.clone())
        },
        TypeKind::Primitive(p) => MemberTy::Primitive(
            match primitive_to_kind(*p) {
                Some(k) => k,
                None => 4,
            },
        ),
        TypeKind::Reference { inner } => ast_member_ty(inner),
        _ => MemberTy::Primitive(4),
    }
}

/// The member type of a stack value of runtime kind `kind`.
pub fn kind_member_ty(kind: u64) -> (r: MemberTy)
    ensures
        r == if kind & 0xff == 16 {
            MemberTy::String
        } else if kind & 0xff <= 15 {
            MemberTy::Primitive(kind & 0xff)
        } else {
            MemberTy::Primitive(kind)
        },
{
    let k = kind & 0xff;
    if k == 16 {
        MemberTy::String
    } else if k <= 15 {
        MemberTy::Primitive(k)
    } else {
        MemberTy::Primitive(kind)
    }
}

/// Kinds of the integer-like primitives (`bool` excluded, `rune` included).
pub open spec fn intish(k: u64) -> bool {
    1 <= k <= 11
}

/// Whether a value of member type `got` may fill a slot of member type
/// `want`: the same type, two integer-like kinds, or a string either way.
pub open spec fn compatible(want: MemberTy, got: MemberTy) -> bool {
    ||| same_member(want, got)
    ||| (want matches MemberTy::Primitive(a) && got matches MemberTy::Primitive(b) && intish(a)
        && intish(b))
    ||| (want is String && got == MemberTy::Primitive(16))
    ||| (want == MemberTy::Primitive(16) && got is String)
}

pub fn members_compatible(want: &MemberTy, got: &MemberTy) -> (r: bool)
    ensures
        r == compatible(*want, *got),
{
    match (want, got) {
        (MemberTy::Named(a), MemberTy::Named(b)) => str_eq(a.as_str(), b.as_str()),
        (MemberTy::String, MemberTy::String) => true,
        (MemberTy::Primitive(a), MemberTy::Primitive(b)) => *a == *b || (1 <= *a && *a <= 11 && 1
            <= *b && *b <= 11),
        (MemberTy::String, MemberTy::Primitive(b)) => *b == 16,
        (MemberTy::Primitive(a), MemberTy::String) => *a == 16,
        _ => false,
    }
}

/// The last `.`-separated segment of a path.
pub open spec fn last_segment(s: Seq<char>) -> Seq<char>
    decreases s.len(),
{
    if s.len() == 0 {
        s
    } else if s.last() == '.' {
        Seq::empty()
    } else {
        last_segment(s.drop_last()).push(s.last())
    }
}

fn last_segment_of(s: &str) -> (r: String)
    ensures
        r@ == last_segment(s@),
{
    let cs = chars_of(s);
    let mut start: usize = cs.len();
    while start > 0 && cs[start - 1] != '.'
        invariant
            start <= cs@.len(),
            cs@ == s@,
            forall|k: int| start <= k < cs@.len() ==> #[trigger] cs@[k] != '.',
        decreases start,
    {
        start -= 1;
    }
    proof {
        lemma_last_segment(cs@, start as int);
    }
    let tail = crate::text::slice_chars(&cs, start, cs.len());
    string_of_chars(&tail)
}

proof fn lemma_last_segment(s: Seq<char>, start: int)
    requires
        0 <= start <= s.len(),
        forall|k: int| start <= k < s.len() ==> #[trigger] s[k] != '.',
        start == 0 || s[start - 1] == '.',
    ensures
        last_segment(s) == s.subrange(start, s.len() as int),
    decreases s.len(),
{
    if s.len() == 0 {
        assert(s.subrange(start, 0) =~= s);
    } else if start == s.len() {
        assert(s.subrange(start, s.len() as int) =~= Seq::<char>::empty());
    } else {
        lemma_last_segment(s.drop_last(), start);
        assert(s.subrange(start, s.len() as int) =~= s.drop_last().subrange(start, s.len() - 1).push(
            s.last(),
        ));
    }
}

/// Whether a type names an error type: the `error` primitive, or a name
/// whose last segment or whole path is a declared error type, or `Error`.
pub open spec fn is_error_type_spec(t: Type, error_types: Seq<Seq<char>>) -> bool {
    match t.kind {
        TypeKind::Primitive(Primitive::Error) => true,
        TypeKind::Named(n) => error_types.contains(last_segment(n@)) || error_types.contains(n@) || n@
            == "Error"@,
        _ => false,
    }
}

fn names_contain(names: &Vec<String>, s: &str) -> (r: bool)
    ensures
        r == crate::diagnostics::views(names@).contains(s@),
{
    let mut i: usize = 0;
    while i < names.len()
        invariant
            0 <= i <= names@.len(),
            forall|j: int| 0 <= j < i ==> (#[trigger] names@[j])@ != s@,
        decreases names@.len() - i,
    {
        if str_eq(names[i].as_str(), s) {
            assert(crate::diagnostics::views(names@)[i as int] == s@);
            return true;
        }
        i += 1;
    }
    assert forall|j: int| 0 <= j < crate::diagnostics::views(names@).len() implies crate::diagnostics::views(
        names@,
    )[j] != s@ by {
        assert(crate::diagnostics::views(names@)[j] == names@[j]@);
    }
    false
}

fn is_error_type(t: &Type, error_types: &Vec<String>) -> (r: bool)
    ensures
        r == is_error_type_spec(*t, crate::diagnostics::views(error_types@)),
{
    match &t.kind {
        TypeKind::Primitive(Primitive::Error) => true,
        TypeKind::Named(n) => {
            let last = last_segment_of(n.as_str());
            names_contain(error_types, last.as_str()) || names_contain(error_types, n.as_str())
                || str_eq(n.as_str(), "Error")
        },
        _ => false,
    }
}

/// The payload member type of a fallible return `|T Err|`: a single union
/// of two members exactly one of which is an error type.
pub open spec fn fallible_payload_spec(result_tys: Seq<Type>, error_types: Seq<Seq<char>>) -> Option<
    MemberTy,
> {
    if result_tys.len() != 1 {
        None
    } else {
        match result_tys[0].kind {
            TypeKind::Union(members) => if members@.len() != 2 {
                None
            } else {
                let e0 = is_error_type_spec(members@[0], error_types);
                let e1 = is_error_type_spec(members@[1], error_types);
                if !e0 && e1 {
                    Some(member_ty_spec(members@[0]))
                } else if e0 && !e1 {
                    Some(member_ty_spec(members@[1]))
                } else {
                    None
                }
            },
            _ => None,
        }
    }
}

/// Payload type of a function's fallible `|T Err|` return, if it has one;
/// `error_types` are the declared error type names.
pub fn fallible_payload(result_tys: &Vec<Type>, error_types: &Vec<String>) -> (r: Option<MemberTy>)
    ensures
        match (r, fallible_payload_spec(result_tys@, crate::diagnostics::views(error_types@))) {
            (Some(a), Some(b)) => same_member(a, b),
            (None, None) => true,
            _ => false,
        },
{
    if result_tys.len() != 1 {
        return None;
    }
    match &result_tys[0].kind {
        TypeKind::Union(members) => {
            if members.len() != 2 {
                return None;
            }
            let e0 = is_error_type(&members[0], error_types);
            let e1 = is_error_type(&members[1], error_types);
            if !e0 && e1 {
                Some(ast_member_ty(&members[0]))
            } else if e0 && !e1 {
                Some(ast_member_ty(&members[1]))
            } else {
                None
            }
        },
        _ => None,
    }
}

} // verus!
