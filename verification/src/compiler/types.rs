//! Physical value types, their compact codes, and struct layouts.

use vstd::prelude::*;
use crate::compiler::errors::{is_new_error, CompileError};
use crate::diagnostics::span::{sat_add, span_at};
use crate::diagnostics::Span;
use crate::parser::ast::{Primitive, Type, TypeKind};
use crate::text::{decimal, decimal_spec, owned, push_str, str_eq};
use crate::token::Location;
use crate::compiler::error_types::{last_segment, last_segment_text};

verus! {

pub type CResult<T> = Result<T, CompileError>;

/// The physical representation of a Yarrow value during code generation.
///
/// This tracks more than a bare machine type: it remembers signedness and
/// logical roles (`Bool` vs `i8`, struct pointers) so the right instruction
/// (signed vs unsigned division, logical vs bitwise not) is chosen.
#[derive(Debug, Clone, Copy, PartialEq, Eq, Structural)]
pub enum Ty {
    Bool,
    I8,
    I16,
    I32,
    I64,
    /// Reserved scalar code slot; not a language primitive.
    I128,
    U8,
    U16,
    U32,
    U64,
    /// Reserved scalar code slot; not a language primitive.
    U128,
    Rune,
    F16,
    F32,
    F64,
    /// Reserved scalar code slot; not a language primitive.
    F128,
    Void,
    /// A pointer to a struct instance or a `reference<T>`; the payload is the
    /// struct's index into the layout table.
    Struct(u32),
    /// An enum value (an index into the enum table), physically an I64.
    Enum(u32),
    /// A pointer to a fixed-size array: the element scalar code and the
    /// element count (`0` means "size not yet inferred").
    Array { elem: u8, count: u32 },
    /// A raw pointer; the payload is the pointee's container element code.
    Ptr(u32),
    /// A heap string handle.
    String,
    /// A heap list handle; the element type as a container code.
    List { elem: u64 },
    /// A heap hashmap handle; keys and values as container codes.
    Hashmap { key: u64, value: u64 },
    /// A tagged one-of type: an index into the union table.
    Union(u32),
    /// An error value: a program-unique error tag.
    Error,
}

pub open spec fn is_int_ty(t: Ty) -> bool {
    match t {
        Ty::Bool | Ty::I8 | Ty::I16 | Ty::I32 | Ty::I64 | Ty::I128 | Ty::U8 | Ty::U16 | Ty::U32
        | Ty::U64 | Ty::U128 | Ty::Rune | Ty::Error | Ty::Enum(_) => true,
        _ => false,
    }
}

pub open spec fn is_float_ty(t: Ty) -> bool {
    match t {
        Ty::F16 | Ty::F32 | Ty::F64 | Ty::F128 => true,
        _ => false,
    }
}

pub open spec fn is_pointer_ty(t: Ty) -> bool {
    match t {
        Ty::Ptr(_) | Ty::Struct(_) | Ty::Array { .. } | Ty::String | Ty::List { .. }
        | Ty::Hashmap { .. } | Ty::Union(_) => true,
        _ => false,
    }
}

pub open spec fn is_signed_ty(t: Ty) -> bool {
    match t {
        Ty::I8 | Ty::I16 | Ty::I32 | Ty::I64 | Ty::I128 | Ty::F16 | Ty::F32 | Ty::F64
        | Ty::F128 => true,
        _ => false,
    }
}

pub open spec fn bits_of(t: Ty) -> u32 {
    match t {
        Ty::Bool | Ty::I8 | Ty::U8 => 8,
        Ty::I16 | Ty::U16 | Ty::F16 => 16,
        Ty::I32 | Ty::U32 | Ty::Rune | Ty::F32 => 32,
        Ty::I128 | Ty::U128 | Ty::F128 => 128,
        Ty::Void => 0,
        _ => 64,
    }
}

/// Byte size: the bit width rounded up to whole bytes.
pub open spec fn elem_size_of(t: Ty) -> u32 {
    ((bits_of(t) + 7) / 8) as u32
}

/// The scalar code of a type (enums share the I64 code).
pub open spec fn scalar_code_of(t: Ty) -> Option<u8> {
    match t {
        Ty::Bool => Some(0u8),
        Ty::I8 => Some(1u8),
        Ty::I16 => Some(2u8),
        Ty::I32 => Some(3u8),
        Ty::I64 => Some(4u8),
        Ty::I128 => Some(5u8),
        Ty::U8 => Some(6u8),
        Ty::U16 => Some(7u8),
        Ty::U32 => Some(8u8),
        Ty::U64 => Some(9u8),
        Ty::U128 => Some(10u8),
        Ty::Rune => Some(11u8),
        Ty::F16 => Some(12u8),
        Ty::F32 => Some(13u8),
        Ty::F64 => Some(14u8),
        Ty::F128 => Some(15u8),
        Ty::Enum(_) => Some(4u8),
        _ => None,
    }
}

/// The type a scalar code stands for (codes above 15 read as `F128`).
pub open spec fn scalar_ty_of(code: u8) -> Ty {
    if code == 0 {
        Ty::Bool
    } else if code == 1 {
        Ty::I8
    } else if code == 2 {
        Ty::I16
    } else if code == 3 {
        Ty::I32
    } else if code == 4 {
        Ty::I64
    } else if code == 5 {
        Ty::I128
    } else if code == 6 {
        Ty::U8
    } else if code == 7 {
        Ty::U16
    } else if code == 8 {
        Ty::U32
    } else if code == 9 {
        Ty::U64
    } else if code == 10 {
        Ty::U128
    } else if code == 11 {
        Ty::Rune
    } else if code == 12 {
        Ty::F16
    } else if code == 13 {
        Ty::F32
    } else if code == 14 {
        Ty::F64
    } else {
        Ty::F128
    }
}

/// The runtime kind code of a type: scalars `0..=15`, a string `16`, a list
/// `0x20 | elem << 8`, a hashmap `0x30 | key << 8 | value << 40`, a struct
/// `0x40 | id << 8`, a union `0x70 | id << 8`, anything else (arrays,
/// generic pointers) `0x50`.
pub open spec fn kind_code_of(t: Ty) -> u64 {
    match t {
        Ty::String => 16,
        Ty::List { elem } => 0x20u64 | (elem << 8u64),
        Ty::Hashmap { key, value } => 0x30u64 | (key << 8u64) | (value << 40u64),
        Ty::Struct(id) => 0x40u64 | ((id as u64) << 8u64),
        Ty::Union(id) => 0x70u64 | ((id as u64) << 8u64),
        _ => match scalar_code_of(t) {
            Some(c) => c as u64,
            None => 0x50,
        },
    }
}

/// The container element code of a type; `None` for the types a container
/// cannot hold (`Void`, `Error`, the 128-bit values).
pub open spec fn elem_code_of(t: Ty) -> Option<u64> {
    match t {
        Ty::String => Some(16u64),
        Ty::Struct(id) => Some(0x40u64 | ((id as u64) << 8u64)),
        Ty::Union(id) => Some(0x70u64 | ((id as u64) << 8u64)),
        Ty::List { .. } | Ty::Hashmap { .. } => Some(kind_code_of(t)),
        Ty::Ptr(_) | Ty::Array { .. } => Some(0x50u64),
        Ty::I128 | Ty::U128 | Ty::F128 => None,
        _ => match scalar_code_of(t) {
            Some(c) => Some(c as u64),
            None => None,
        },
    }
}

/// The type an element / kind code decodes to, by its low byte.
pub open spec fn elem_ty_of(code: u64) -> Ty {
    let tag = code & 0xff;
    if tag <= 15 {
        scalar_ty_of(tag as u8)
    } else if tag == 16 {
        Ty::String
    } else if tag == 0x20 {
        Ty::List { elem: code >> 8u64 }
    } else if tag == 0x30 {
        Ty::Hashmap { key: (code >> 8u64) & 0xffff_ffff, value: code >> 40u64 }
    } else if tag == 0x40 {
        Ty::Struct((code >> 8u64) as u32)
    } else if tag == 0x60 {
        Ty::Array { elem: (code >> 8u64) as u8, count: (code >> 40u64) as u32 }
    } else if tag == 0x70 {
        Ty::Union((code >> 8u64) as u32)
    } else {
        Ty::Ptr(0x50)
    }
}

impl Ty {
    pub fn is_int(self) -> (r: bool)
        ensures
            r == is_int_ty(self),
    {
        match self {
            Ty::Bool | Ty::I8 | Ty::I16 | Ty::I32 | Ty::I64 | Ty::I128 | Ty::U8 | Ty::U16
            | Ty::U32 | Ty::U64 | Ty::U128 | Ty::Rune | Ty::Error | Ty::Enum(_) => true,
            _ => false,
        }
    }

    pub fn is_float(self) -> (r: bool)
        ensures
            r == is_float_ty(self),
    {
        match self {
            Ty::F16 | Ty::F32 | Ty::F64 | Ty::F128 => true,
            _ => false,
        }
    }

    pub fn is_bool(self) -> (r: bool)
        ensures
            r == (self == Ty::Bool),
    {
        self == Ty::Bool
    }

    /// A compact scalar code, used by `Ty::Array { elem, .. }`; `None` for
    /// non-scalar types. Enums are physically I64 and share its code.
    pub fn scalar_code(self) -> (r: Option<u8>)
        ensures
            r == scalar_code_of(self),
    {
        match self {
            Ty::Bool => Some(0),
            Ty::I8 => Some(1),
            Ty::I16 => Some(2),
            Ty::I32 => Some(3),
            Ty::I64 => Some(4),
            Ty::I128 => Some(5),
            Ty::U8 => Some(6),
            Ty::U16 => Some(7),
            Ty::U32 => Some(8),
            Ty::U64 => Some(9),
            Ty::U128 => Some(10),
            Ty::Rune => Some(11),
            Ty::F16 => Some(12),
            Ty::F32 => Some(13),
            Ty::F64 => Some(14),
            Ty::F128 => Some(15),
            Ty::Enum(_) => Some(4),
            _ => None,
        }
    }

    pub fn is_pointer(self) -> (r: bool)
        ensures
            r == is_pointer_ty(self),
    {
        match self {
            Ty::Ptr(_) | Ty::Struct(_) | Ty::Array { .. } | Ty::String | Ty::List { .. }
            | Ty::Hashmap { .. } | Ty::Union(_) => true,
            _ => false,
        }
    }

    pub fn bits(self) -> (r: u32)
        ensures
            r == bits_of(self),
    {
        match self {
            Ty::Bool | Ty::I8 | Ty::U8 => 8,
            Ty::I16 | Ty::U16 | Ty::F16 => 16,
            Ty::I32 | Ty::U32 | Ty::Rune | Ty::F32 => 32,
            Ty::I64 | Ty::U64 | Ty::F64 | Ty::Ptr(_) | Ty::Struct(_) | Ty::Enum(_)
            | Ty::Array { .. } | Ty::String | Ty::List { .. } | Ty::Hashmap { .. } | Ty::Union(_)
            | Ty::Error => 64,
            Ty::I128 | Ty::U128 | Ty::F128 => 128,
            Ty::Void => 0,
        }
    }

    pub fn is_signed(self) -> (r: bool)
        ensures
            r == is_signed_ty(self),
    {
        match self {
            Ty::I8 | Ty::I16 | Ty::I32 | Ty::I64 | Ty::I128 | Ty::F16 | Ty::F32 | Ty::F64
            | Ty::F128 => true,
            _ => false,
        }
    }

    /// Byte size of one value (pointers are pointer-sized).
    pub fn elem_size(self) -> (r: u32)
        ensures
            r == elem_size_of(self),
    {
        (self.bits() + 7) / 8
    }
}

/// Inverse of [`Ty::scalar_code`]: decode an array element type code.
pub fn scalar_ty(code: u8) -> (r: Ty)
    ensures
        r == scalar_ty_of(code),
{
    match code {
        0 => Ty::Bool,
        1 => Ty::I8,
        2 => Ty::I16,
        3 => Ty::I32,
        4 => Ty::I64,
        5 => Ty::I128,
        6 => Ty::U8,
        7 => Ty::U16,
        8 => Ty::U32,
        9 => Ty::U64,
        10 => Ty::U128,
        11 => Ty::Rune,
        12 => Ty::F16,
        13 => Ty::F32,
        14 => Ty::F64,
        _ => Ty::F128,
    }
}

/// A compact code for container element / key / value types: scalars,
/// strings, structs and unions with their ids, nested containers by their
/// kind code, and `0x50` for opaque pointers and arrays. `None` for types a
/// container cannot hold (`Void`, `Error`, the 128-bit values).
pub fn elem_code(ty: Ty) -> (r: Option<u64>)
    ensures
        r == elem_code_of(ty),
{
    match ty {
        Ty::String => Some(16),
        Ty::Struct(id) => Some(0x40 | ((id as u64) << 8)),
        Ty::Union(id) => Some(0x70 | ((id as u64) << 8)),
        Ty::List { .. } | Ty::Hashmap { .. } => Some(kind_code(ty)),
        Ty::Ptr(_) | Ty::Array { .. } => Some(0x50),
        Ty::I128 | Ty::U128 | Ty::F128 => None,
        other => match other.scalar_code() {
            Some(c) => Some(c as u64),
            None => None,
        },
    }
}

/// Inverse of [`elem_code`] and [`kind_code`]: the low byte is the kind tag.
/// `0x50` (a pointer whose pointee is unknown) and unknown tags decode to the
/// generic pointer `Ty::Ptr(0x50)`.
pub fn elem_ty(code: u64) -> (r: Ty)
    ensures
        r == elem_ty_of(code),
{
    let tag = code & 0xff;
    if tag <= 15 {
        scalar_ty(tag as u8)
    } else if tag == 16 {
        Ty::String
    } else if tag == 0x20 {
        Ty::List { elem: code >> 8 }
    } else if tag == 0x30 {
        Ty::Hashmap { key: (code >> 8) & 0xffff_ffff, value: code >> 40 }
    } else if tag == 0x40 {
        Ty::Struct((code >> 8) as u32)
    } else if tag == 0x60 {
        Ty::Array { elem: (code >> 8) as u8, count: (code >> 40) as u32 }
    } else if tag == 0x70 {
        Ty::Union((code >> 8) as u32)
    } else {
        Ty::Ptr(0x50)
    }
}

/// The runtime kind code of a physical type (see [`kind_code_of`]).
pub fn kind_code(ty: Ty) -> (r: u64)
    ensures
        r == kind_code_of(ty),
{
    match ty {
        Ty::String => 16,
        Ty::List { elem } => 0x20 | (elem << 8),
        Ty::Hashmap { key, value } => 0x30 | (key << 8) | (value << 40),
        Ty::Struct(id) => 0x40 | ((id as u64) << 8),
        Ty::Union(id) => 0x70 | ((id as u64) << 8),
        other => match other.scalar_code() {
            Some(c) => c as u64,
            None => 0x50,
        },
    }
}

// ---------------------------------------------------------------------------
// Code round trips
// ---------------------------------------------------------------------------

proof fn lemma_tag_payload(tag: u64, p: u64)
    requires
        tag < 0x100,
        p < 0x0100_0000_0000_0000,
    ensures
        (tag | (p << 8u64)) & 0xff == tag,
        (tag | (p << 8u64)) >> 8u64 == p,
{
    assert((tag | (p << 8u64)) & 0xff == tag) by (bit_vector)
        requires
            tag < 0x100,
    ;
    assert((tag | (p << 8u64)) >> 8u64 == p) by (bit_vector)
        requires
            tag < 0x100,
            p < 0x0100_0000_0000_0000,
    ;
}

proof fn lemma_tag_id(tag: u64, id: u32)
    requires
        tag < 0x100,
    ensures
        (tag | ((id as u64) << 8u64)) & 0xff == tag,
        ((tag | ((id as u64) << 8u64)) >> 8u64) as u32 == id,
{
    assert((tag | ((id as u64) << 8u64)) & 0xff == tag) by (bit_vector)
        requires
            tag < 0x100,
    ;
    assert(((tag | ((id as u64) << 8u64)) >> 8u64) as u32 == id) by (bit_vector)
        requires
            tag < 0x100,
    ;
}

proof fn lemma_map_code(key: u64, value: u64)
    requires
        key < 0x1_0000_0000,
        value < 0x100_0000,
    ensures
        (0x30u64 | (key << 8u64) | (value << 40u64)) & 0xff == 0x30,
        ((0x30u64 | (key << 8u64) | (value << 40u64)) >> 8u64) & 0xffff_ffff == key,
        (0x30u64 | (key << 8u64) | (value << 40u64)) >> 40u64 == value,
{
    assert((0x30u64 | (key << 8u64) | (value << 40u64)) & 0xff == 0x30) by (bit_vector);
    assert(((0x30u64 | (key << 8u64) | (value << 40u64)) >> 8u64) & 0xffff_ffff == key)
        by (bit_vector)
        requires
            key < 0x1_0000_0000,
    ;
    assert((0x30u64 | (key << 8u64) | (value << 40u64)) >> 40u64 == value) by (bit_vector)
        requires
            key < 0x1_0000_0000,
            value < 0x100_0000,
    ;
}

/// The types whose element code decodes back to them: everything a
/// container can hold except arrays, raw pointers and enums (which share the
/// I64 code), with nested container codes narrow enough for the code format.
pub open spec fn elem_round_trips(t: Ty) -> bool {
    match t {
        Ty::List { elem } => elem < 0x0100_0000_0000_0000,
        Ty::Hashmap { key, value } => key < 0x1_0000_0000 && value < 0x100_0000,
        Ty::Ptr(_) | Ty::Array { .. } | Ty::Enum(_) | Ty::Void | Ty::Error | Ty::I128 | Ty::U128 | Ty::F128 => false,
        _ => true,
    }
}

/// Decoding an element code gives back the type it was made from.
pub proof fn lemma_elem_code_round_trip(t: Ty)
    requires
        elem_round_trips(t),
    ensures
        elem_code_of(t) is Some,
        elem_ty_of(elem_code_of(t)->0) == t,
{
    match t {
        Ty::List { elem } => {
            lemma_tag_payload(0x20, elem);
            assert(elem_code_of(t) == Some(0x20u64 | (elem << 8u64)));
        },
        Ty::Hashmap { key, value } => lemma_map_code(key, value),
        Ty::Struct(id) => lemma_tag_id(0x40, id),
        Ty::Union(id) => lemma_tag_id(0x70, id),
        _ => {
            let c = elem_code_of(t)->0;
            assert(c <= 16 ==> c & 0xff == c) by (bit_vector);
        },
    }
}

/// Decoding a kind code gives back the type it was made from.
pub proof fn lemma_kind_code_round_trip(t: Ty)
    requires
        elem_round_trips(t),
    ensures
        elem_ty_of(kind_code_of(t)) == t,
{
    lemma_elem_code_round_trip(t);
}

/// Scalar codes round-trip for every scalar type but enums, which read back
/// as `I64`; and every code up to 15 is the code of the type it decodes to.
pub proof fn lemma_scalar_code_round_trip(t: Ty, code: u8)
    ensures
        scalar_code_of(t) is Some && !(t is Enum) ==> scalar_ty_of(scalar_code_of(t)->0) == t,
        t is Enum ==> scalar_ty_of(scalar_code_of(t)->0) == Ty::I64,
        code <= 15 ==> scalar_code_of(scalar_ty_of(code)) == Some(code),
{
}


// ---------------------------------------------------------------------------
// Resolving source types
// ---------------------------------------------------------------------------

/// The physical type of a primitive; `None` for primitives without one yet
/// (`type` and the 128-bit primitives).
pub open spec fn primitive_ty_of(p: Primitive) -> Option<Ty> {
    match p {
        Primitive::I8 => Some(Ty::I8),
        Primitive::I16 => Some(Ty::I16),
        Primitive::I32 => Some(Ty::I32),
        Primitive::I64 => Some(Ty::I64),
        Primitive::U8 => Some(Ty::U8),
        Primitive::U16 => Some(Ty::U16),
        Primitive::U32 => Some(Ty::U32),
        Primitive::U64 => Some(Ty::U64),
        Primitive::F16 => Some(Ty::F16),
        Primitive::F32 => Some(Ty::F32),
        Primitive::F64 => Some(Ty::F64),
        Primitive::Rune => Some(Ty::Rune),
        Primitive::Bool => Some(Ty::Bool),
        Primitive::Void => Some(Ty::Void),
        Primitive::String => Some(Ty::String),
        Primitive::Error => Some(Ty::Error),
        _ => None,
    }
}

/// Map a primitive type to its physical `Ty`.
pub fn primitive_ty(p: Primitive) -> (r: Option<Ty>)
    ensures
        r == primitive_ty_of(p),
{
    match p {
        Primitive::I8 => Some(Ty::I8),
        Primitive::I16 => Some(Ty::I16),
        Primitive::I32 => Some(Ty::I32),
        Primitive::I64 => Some(Ty::I64),
        Primitive::U8 => Some(Ty::U8),
        Primitive::U16 => Some(Ty::U16),
        Primitive::U32 => Some(Ty::U32),
        Primitive::U64 => Some(Ty::U64),
        Primitive::F16 => Some(Ty::F16),
        Primitive::F32 => Some(Ty::F32),
        Primitive::F64 => Some(Ty::F64),
        Primitive::Rune => Some(Ty::Rune),
        Primitive::Bool => Some(Ty::Bool),
        Primitive::Void => Some(Ty::Void),
        Primitive::String => Some(Ty::String),
        Primitive::Error => Some(Ty::Error),
        _ => None,
    }
}

/// The name `{:?}` prints for a primitive without a physical type.
pub open spec fn unsupported_primitive_name(p: Primitive) -> Seq<char> {
    match p {
        Primitive::I128 => "I128"@,
        Primitive::U128 => "U128"@,
        Primitive::F128 => "F128"@,
        _ => "Type"@,
    }
}

fn unsupported_primitive_text(p: Primitive) -> (r: String)
    ensures
        r@ == unsupported_primitive_name(p),
{
    match p {
        Primitive::I128 => owned("I128"),
        Primitive::U128 => owned("U128"),
        Primitive::F128 => owned("F128"),
        _ => owned("Type"),
    }
}

/// What `{:?}` prints for a `Ty`.
pub open spec fn ty_debug_spec(t: Ty) -> Seq<char> {
    match t {
        Ty::Bool => "Bool"@,
        Ty::I8 => "I8"@,
        Ty::I16 => "I16"@,
        Ty::I32 => "I32"@,
        Ty::I64 => "I64"@,
        Ty::I128 => "I128"@,
        Ty::U8 => "U8"@,
        Ty::U16 => "U16"@,
        Ty::U32 => "U32"@,
        Ty::U64 => "U64"@,
        Ty::U128 => "U128"@,
        Ty::Rune => "Rune"@,
        Ty::F16 => "F16"@,
        Ty::F32 => "F32"@,
        Ty::F64 => "F64"@,
        Ty::F128 => "F128"@,
        Ty::Void => "Void"@,
        Ty::Struct(id) => "Struct("@ + decimal_spec(id as nat) + ")"@,
        Ty::Enum(id) => "Enum("@ + decimal_spec(id as nat) + ")"@,
        Ty::Array { elem, count } => "Array { elem: "@ + decimal_spec(elem as nat) + ", count: "@
            + decimal_spec(count as nat) + " }"@,
        Ty::Ptr(code) => "Ptr("@ + decimal_spec(code as nat) + ")"@,
        Ty::String => "String"@,
        Ty::List { elem } => "List { elem: "@ + decimal_spec(elem as nat) + " }"@,
        Ty::Hashmap { key, value } => "Hashmap { key: "@ + decimal_spec(key as nat) + ", value: "@
            + decimal_spec(value as nat) + " }"@,
        Ty::Union(id) => "Union("@ + decimal_spec(id as nat) + ")"@,
        Ty::Error => "Error"@,
    }
}

/// `head`, `n` and `)`, as `{:?}` prints a tuple variant with one integer.
fn wrapped_decimal(head: &str, n: u64) -> (r: String)
    ensures
        r@ == head@ + decimal_spec(n as nat) + ")"@,
{
    let mut s = owned(head);
    let d = decimal(n);
    push_str(&mut s, d.as_str());
    push_str(&mut s, ")");
    s
}

/// `{:?}` of a `Ty`, for messages.
pub fn ty_debug(t: Ty) -> (r: String)
    ensures
        r@ == ty_debug_spec(t),
{
    match t {
        Ty::Bool => owned("Bool"),
        Ty::I8 => owned("I8"),
        Ty::I16 => owned("I16"),
        Ty::I32 => owned("I32"),
        Ty::I64 => owned("I64"),
        Ty::I128 => owned("I128"),
        Ty::U8 => owned("U8"),
        Ty::U16 => owned("U16"),
        Ty::U32 => owned("U32"),
        Ty::U64 => owned("U64"),
        Ty::U128 => owned("U128"),
        Ty::Rune => owned("Rune"),
        Ty::F16 => owned("F16"),
        Ty::F32 => owned("F32"),
        Ty::F64 => owned("F64"),
        Ty::F128 => owned("F128"),
        Ty::Void => owned("Void"),
        Ty::Struct(id) => wrapped_decimal("Struct(", id as u64),
        Ty::Enum(id) => wrapped_decimal("Enum(", id as u64),
        Ty::Array { elem, count } => {
            let mut s = owned("Array { elem: ");
            let a = decimal(elem as u64);
            push_str(&mut s, a.as_str());
            push_str(&mut s, ", count: ");
            let b = decimal(count as u64);
            push_str(&mut s, b.as_str());
            push_str(&mut s, " }");
            assert(s@ =~= ty_debug_spec(t));
            s
        },
        Ty::Ptr(code) => wrapped_decimal("Ptr(", code as u64),
        Ty::String => owned("String"),
        Ty::List { elem } => {
            let mut s = owned("List { elem: ");
            let a = decimal(elem);
            push_str(&mut s, a.as_str());
            push_str(&mut s, " }");
            assert(s@ =~= ty_debug_spec(t));
            s
        },
        Ty::Hashmap { key, value } => {
            let mut s = owned("Hashmap { key: ");
            let a = decimal(key);
            push_str(&mut s, a.as_str());
            push_str(&mut s, ", value: ");
            let b = decimal(value);
            push_str(&mut s, b.as_str());
            push_str(&mut s, " }");
            assert(s@ =~= ty_debug_spec(t));
            s
        },
        Ty::Union(id) => wrapped_decimal("Union(", id as u64),
        Ty::Error => owned("Error"),
    }
}

/// The type a name stands for in a lookup table of named types (struct,
/// union, enum and error names): the first entry with that name.
pub open spec fn lookup_named(table: Seq<(Seq<char>, Ty)>, name: Seq<char>) -> Option<Ty>
    decreases table.len(),
{
    if table.len() == 0 {
        None
    } else if table[0].0 == name {
        Some(table[0].1)
    } else {
        lookup_named(table.drop_first(), name)
    }
}

proof fn lemma_lookup_skip(table: Seq<(Seq<char>, Ty)>, name: Seq<char>, i: int)
    requires
        0 <= i <= table.len(),
        forall|j: int| 0 <= j < i ==> (#[trigger] table[j]).0 != name,
    ensures
        lookup_named(table, name) == lookup_named(table.subrange(i, table.len() as int), name),
    decreases i,
{
    if i > 0 {
        let rest = table.drop_first();
        assert forall|j: int| 0 <= j < i - 1 implies (#[trigger] rest[j]).0 != name by {
            assert(rest[j] == table[j + 1]);
        }
        lemma_lookup_skip(rest, name, i - 1);
        assert(rest.subrange(i - 1, rest.len() as int) =~= table.subrange(i, table.len() as int));
    } else {
        assert(table.subrange(0, table.len() as int) =~= table);
    }
}

/// A table of named types by value: each name's characters and its type.
pub open spec fn names_view(table: Seq<(String, Ty)>) -> Seq<(Seq<char>, Ty)> {
    table.map_values(|e: (String, Ty)| (e.0@, e.1))
}

/// Look a name up in a table of named types.
pub fn lookup_named_type(table: &Vec<(String, Ty)>, name: &str) -> (r: Option<Ty>)
    ensures
        r == lookup_named(names_view(table@), name@),
{
    let ghost t = names_view(table@);
    let mut i: usize = 0;
    while i < table.len()
        invariant
            0 <= i <= table@.len(),
            t == names_view(table@),
            forall|j: int| 0 <= j < i ==> (#[trigger] t[j]).0 != name@,
        decreases table@.len() - i,
    {
        if str_eq(table[i].0.as_str(), name) {
            proof {
                lemma_lookup_skip(t, name@, i as int);
            }
            return Some(table[i].1);
        }
        assert(t[i as int].0 == table@[i as int].0@);
        i += 1;
    }
    proof {
        lemma_lookup_skip(t, name@, i as int);
    }
    None
}

/// A compile failure in spec form: message, code, and the location it points at.
pub type Failure = (Seq<char>, Seq<char>, Location);

/// The one-byte span a location names.
pub open spec fn point_span(loc: Location) -> Span {
    span_at(loc.offset, sat_add(loc.offset, 1), loc.line, loc.column)
}

/// `e` is the error `CompileError::at` builds for the failure `f`.
pub open spec fn is_failure(e: CompileError, f: Failure) -> bool {
    is_new_error(*e.diagnostic, f.0, point_span(f.2), f.1)
}

/// `r` is the result the spec outcome `o` describes.
pub open spec fn agrees<T>(r: Result<T, CompileError>, o: Result<T, Failure>) -> bool {
    match (r, o) {
        (Ok(a), Ok(b)) => a == b,
        (Err(e), Err(f)) => is_failure(e, f),
        _ => false,
    }
}

fn fail<T>(message: String, location: Location, code: &str) -> (r: CResult<T>)
    ensures
        r matches Err(e) && is_failure(e, (message@, code@, location)),
{
    Err(CompileError::at(message, location, owned(code)))
}

/// A container element / key / value code; types wider than 8 bytes and types
/// without an element code fail with `E344`.
pub open spec fn container_code_spec(elem: Ty, loc: Location) -> Result<u64, Failure> {
    if elem_size_of(elem) > 8 {
        Err(
            (
                "container element type "@ + ty_debug_spec(elem) + " is wider than 8 bytes"@,
                "E344"@,
                loc,
            ),
        )
    } else {
        match elem_code_of(elem) {
            Some(c) => Ok(c),
            None => Err(
                (
                    "container element type "@ + ty_debug_spec(elem) + " is not supported"@,
                    "E344"@,
                    loc,
                ),
            ),
        }
    }
}

fn container_elem_code(elem: Ty, loc: Location) -> (r: CResult<u64>)
    ensures
        agrees(r, container_code_spec(elem, loc)),
{
    if elem.elem_size() > 8 {
        let mut m = owned("container element type ");
        push_str(&mut m, ty_debug(elem).as_str());
        push_str(&mut m, " is wider than 8 bytes");
        return fail(m, loc, "E344");
    }
    match elem_code(elem) {
        Some(c) => Ok(c),
        None => {
            let mut m = owned("container element type ");
            push_str(&mut m, ty_debug(elem).as_str());
            push_str(&mut m, " is not supported");
            fail(m, loc, "E344")
        },
    }
}

/// Whether `named` lists `name` as an error type.
pub open spec fn names_error_type(named: Seq<(Seq<char>, Ty)>, name: Seq<char>) -> bool {
    exists|i: int| 0 <= i < named.len() && (#[trigger] named[i]).0 == name && named[i].1 == Ty::Error
}

fn has_error_type(named: &Vec<(String, Ty)>, name: &str) -> (r: bool)
    ensures
        r == names_error_type(names_view(named@), name@),
{
    let ghost t = names_view(named@);
    let mut i: usize = 0;
    while i < named.len()
        invariant
            0 <= i <= named@.len(),
            t == names_view(named@),
            forall|j: int| 0 <= j < i ==> !((#[trigger] t[j]).0 == name@ && t[j].1 == Ty::Error),
        decreases named@.len() - i,
    {
        assert(t[i as int] == (named@[i as int].0@, named@[i as int].1));
        if named[i].1 == Ty::Error && str_eq(named[i].0.as_str(), name) {
            return true;
        }
        i += 1;
    }
    false
}

/// The physical type a source type resolves to, or the failure it reports.
/// Struct, union, enum and error names come from `named` (the first entry of
/// a name wins); a name it lacks is `E302`.
pub open spec fn resolve_spec(ty: Type, named: Seq<(Seq<char>, Ty)>) -> Result<Ty, Failure> {
    resolve_in_spec(ty, named, false)
}

/// `resolve_spec`, where with `paths` a name that `named` lacks but whose
/// last segment names an error type there is that error type (the rule the
/// declaration passes look names up by).
pub open spec fn resolve_in_spec(ty: Type, named: Seq<(Seq<char>, Ty)>, paths: bool) -> Result<Ty, Failure>
    decreases ty,
{
    let loc = ty.location;
    match ty.kind {
        TypeKind::Primitive(p) => match primitive_ty_of(p) {
            Some(t) => Ok(t),
            None => Err(
                (
                    "primitive type '"@ + unsupported_primitive_name(p) + "' is not yet supported"@,
                    "E303"@,
                    loc,
                ),
            ),
        },
        TypeKind::Named(name) => if name@ == "Error"@ || name@ == "error"@ {
            Ok(Ty::Error)
        } else {
            match lookup_named(named, name@) {
                Some(t) => Ok(t),
                None => if paths && names_error_type(named, last_segment(name@)) {
                    Ok(Ty::Error)
                } else {
                    Err(("unknown or unsupported type '"@ + name@ + "'"@, "E302"@, loc))
                },
            }
        },
        TypeKind::Array { element, size } => match resolve_in_spec(*element, named, paths) {
            Err(f) => Err(f),
            Ok(elem) => match scalar_code_of(elem) {
                Some(code) => Ok(
                    Ty::Array {
                        elem: code,
                        count: match size {
                            Some(n) => n as u32,
                            None => 0u32,
                        },
                    },
                ),
                None => Err(
                    (
                        "array element type "@ + ty_debug_spec(elem) + " is not yet supported"@,
                        "E344"@,
                        loc,
                    ),
                ),
            },
        },
        TypeKind::Reference { inner } => resolve_in_spec(*inner, named, paths),
        TypeKind::List { element } => match resolve_in_spec(*element, named, paths) {
            Err(f) => Err(f),
            Ok(elem) => match container_code_spec(elem, loc) {
                Err(f) => Err(f),
                Ok(code) => if code >> 56u64 != 0 {
                    Err(
                        (
                            "list element type "@ + ty_debug_spec(elem) + " is nested too deeply"@,
                            "E344"@,
                            loc,
                        ),
                    )
                } else {
                    Ok(Ty::List { elem: code })
                },
            },
        },
        TypeKind::Hashmap { key, value } => match resolve_in_spec(*key, named, paths) {
            Err(f) => Err(f),
            Ok(kt) => match resolve_in_spec(*value, named, paths) {
                Err(f) => Err(f),
                Ok(vt) => match container_code_spec(kt, loc) {
                    Err(f) => Err(f),
                    Ok(kc) => match container_code_spec(vt, loc) {
                        Err(f) => Err(f),
                        Ok(vc) => if kc >> 32u64 != 0 {
                            Err(
                                (
                                    "hashmap key type "@ + ty_debug_spec(kt)
                                        + " is nested too deeply"@,
                                    "E344"@,
                                    loc,
                                ),
                            )
                        } else if vc >> 24u64 != 0 {
                            Err(
                                (
                                    "hashmap value type "@ + ty_debug_spec(vt)
                                        + " is nested too deeply"@,
                                    "E344"@,
                                    loc,
                                ),
                            )
                        } else {
                            Ok(Ty::Hashmap { key: kc, value: vc })
                        },
                    },
                },
            },
        },
        TypeKind::Pointer { inner } => match resolve_in_spec(*inner, named, paths) {
            Err(f) => Err(f),
            Ok(pointee) => {
                let code = match elem_code_of(pointee) {
                    Some(c) => c,
                    None => 0x50u64,
                };
                Ok(Ty::Ptr(if code >> 32u64 != 0 { 0x50u32 } else { code as u32 }))
            },
        },
        TypeKind::Union(_) => Err(
            (
                "anonymous union types are only supported as fallible returns (|T Err|)"@,
                "E308"@,
                loc,
            ),
        ),
    }
}

/// Resolve a source type to a physical `Ty`. Names other than `Error` /
/// `error` are looked up in `named` (struct, union, enum and error types);
/// a name that is not there is `E302`.
pub fn resolve(ty: &Type, named: &Vec<(String, Ty)>) -> (r: CResult<Ty>)
    ensures
        agrees(r, resolve_spec(*ty, names_view(named@))),
{
    resolve_in(ty, named, false)
}

/// `resolve`, where with `paths` a name missing from `named` whose last
/// segment names an error type there resolves to `Error`.
pub fn resolve_in(ty: &Type, named: &Vec<(String, Ty)>, paths: bool) -> (r: CResult<Ty>)
    ensures
        agrees(r, resolve_in_spec(*ty, names_view(named@), paths)),
    decreases ty,
{
    let loc = ty.location;
    match &ty.kind {
        TypeKind::Primitive(p) => match primitive_ty(*p) {
            Some(t) => Ok(t),
            None => {
                let mut m = owned("primitive type '");
                push_str(&mut m, unsupported_primitive_text(*p).as_str());
                push_str(&mut m, "' is not yet supported");
                fail(m, loc, "E303")
            },
        },
        TypeKind::Named(name) => {
            if str_eq(name.as_str(), "Error") || str_eq(name.as_str(), "error") {
                return Ok(Ty::Error);
            }
            match lookup_named_type(named, name.as_str()) {
                Some(t) => Ok(t),
                None if paths && has_error_type(named, last_segment_text(name.as_str()).as_str()) => Ok(Ty::Error),
                None => {
                    let mut m = owned("unknown or unsupported type '");
                    push_str(&mut m, name.as_str());
                    push_str(&mut m, "'");
                    fail(m, loc, "E302")
                },
            }
        },
        TypeKind::Array { element, size } => {
            let elem = resolve_in(element, named, paths)?;
            match elem.scalar_code() {
                Some(code) => Ok(
                    Ty::Array {
                        elem: code,
                        count: match size {
                            Some(n) => *n as u32,
                            None => 0,
                        },
                    },
                ),
                None => {
                    let mut m = owned("array element type ");
                    push_str(&mut m, ty_debug(elem).as_str());
                    push_str(&mut m, " is not yet supported");
                    fail(m, loc, "E344")
                },
            }
        },
        TypeKind::Reference { inner } => resolve_in(inner, named, paths),
        TypeKind::List { element } => {
            let elem = resolve_in(element, named, paths)?;
            let code = container_elem_code(elem, loc)?;
            // A list's element code is shifted left 8 in its kind code; a
            // code wider than 56 bits would not fit the 64-bit kind word.
            if code >> 56 != 0 {
                let mut m = owned("list element type ");
                push_str(&mut m, ty_debug(elem).as_str());
                push_str(&mut m, " is nested too deeply");
                return fail(m, loc, "E344");
            }
            Ok(Ty::List { elem: code })
        },
        TypeKind::Hashmap { key, value } => {
            let kt = resolve_in(key, named, paths)?;
            let vt = resolve_in(value, named, paths)?;
            let key = container_elem_code(kt, loc)?;
            let value = container_elem_code(vt, loc)?;
            // Keys get 32 bits of the kind code and values 24 (bits 40..).
            if key >> 32 != 0 {
                let mut m = owned("hashmap key type ");
                push_str(&mut m, ty_debug(kt).as_str());
                push_str(&mut m, " is nested too deeply");
                return fail(m, loc, "E344");
            }
            if value >> 24 != 0 {
                let mut m = owned("hashmap value type ");
                push_str(&mut m, ty_debug(vt).as_str());
                push_str(&mut m, " is nested too deeply");
                return fail(m, loc, "E344");
            }
            Ok(Ty::Hashmap { key, value })
        },
        TypeKind::Pointer { inner } => {
            let pointee = resolve_in(inner, named, paths)?;
            // The pointee's element code carries the type; `pointer<void>`
            // and codes wider than the 32-bit payload become a generic pointer.
            let code = match elem_code(pointee) {
                Some(c) => c,
                None => 0x50,
            };
            let code: u32 = if code >> 32 != 0 { 0x50 } else { code as u32 };
            Ok(Ty::Ptr(code))
        },
        TypeKind::Union(_) => fail(
            owned("anonymous union types are only supported as fallible returns (|T Err|)"),
            loc,
            "E308",
        ),
    }
}


// ---------------------------------------------------------------------------
// Fallible returns
// ---------------------------------------------------------------------------

/// The return types that carry a value: all but `Error` and `Void`, in order.
pub open spec fn success_values(ts: Seq<Ty>) -> Seq<Ty>
    decreases ts.len(),
{
    if ts.len() == 0 {
        Seq::empty()
    } else if ts.last() != Ty::Error && ts.last() != Ty::Void {
        success_values(ts.drop_last()).push(ts.last())
    } else {
        success_values(ts.drop_last())
    }
}

/// How a function's return types classify for the error envelope.
pub open spec fn error_return_spec(ts: Seq<Ty>) -> Result<Option<Ty>, Failure> {
    if !ts.contains(Ty::Error) {
        Ok(None)
    } else if success_values(ts).len() > 1 {
        Err(
            (
                "a fallible return may carry at most one success value"@,
                "E308"@,
                Location { line: 0, column: 0, offset: 0 },
            ),
        )
    } else if success_values(ts).len() == 1 {
        Ok(Some(success_values(ts)[0]))
    } else {
        Ok(Some(Ty::Void))
    }
}

/// Classify a function's return types for the error envelope: `Ok(None)`
/// when it cannot fail; `Ok(Some(payload))` when it returns `Error` among
/// its types, where `Void` means no value on success.
pub fn error_return(result_tys: &[Ty]) -> (r: CResult<Option<Ty>>)
    ensures
        agrees(r, error_return_spec(result_tys@)),
{
    let mut has_error = false;
    let mut vals: Vec<Ty> = Vec::new();
    let mut i: usize = 0;
    while i < result_tys.len()
        invariant
            0 <= i <= result_tys@.len(),
            has_error == result_tys@.take(i as int).contains(Ty::Error),
            vals@ == success_values(result_tys@.take(i as int)),
        decreases result_tys@.len() - i,
    {
        let t = result_tys[i];
        proof {
            let next = result_tys@.take(i + 1);
            assert(next.drop_last() =~= result_tys@.take(i as int));
            assert(next.last() == t);
            assert(next.contains(Ty::Error) <==> (result_tys@.take(i as int).contains(Ty::Error)
                || t == Ty::Error)) by {
                if t == Ty::Error {
                    assert(next[i as int] == t);
                }
                if result_tys@.take(i as int).contains(Ty::Error) {
                    let k = choose|k: int| 0 <= k < i && result_tys@.take(i as int)[k] == Ty::Error;
                    assert(next[k] == Ty::Error);
                }
                if next.contains(Ty::Error) && t != Ty::Error {
                    let k = choose|k: int| 0 <= k < i + 1 && next[k] == Ty::Error;
                    assert(result_tys@.take(i as int)[k] == Ty::Error);
                }
            }
        }
        if t == Ty::Error {
            has_error = true;
        }
        if t != Ty::Error && t != Ty::Void {
            vals.push(t);
        }
        i += 1;
    }
    assert(result_tys@.take(result_tys@.len() as int) =~= result_tys@);
    if !has_error {
        return Ok(None);
    }
    if vals.len() > 1 {
        return fail(
            owned("a fallible return may carry at most one success value"),
            Location::default(),
            "E308",
        );
    }
    if vals.len() == 1 {
        Ok(Some(vals[0]))
    } else {
        Ok(Some(Ty::Void))
    }
}

// ---------------------------------------------------------------------------
// Struct layouts
// ---------------------------------------------------------------------------

/// A single field: its resolved physical type and byte offset within the
/// containing struct.
#[derive(Debug)]
pub struct FieldLayout {
    pub name: String,
    pub ty: Ty,
    pub offset: i32,
}

/// The memory layout of a struct: fields, total size and alignment.
#[derive(Debug)]
pub struct StructLayout {
    pub name: String,
    pub fields: Vec<FieldLayout>,
    pub size: u32,
    pub align: u32,
}

/// Natural alignment: pointers and aggregates align to 8 bytes.
pub open spec fn align_of_spec(t: Ty) -> u32 {
    match t {
        Ty::Bool | Ty::I8 | Ty::U8 => 1,
        Ty::I16 | Ty::U16 | Ty::F16 => 2,
        Ty::I32 | Ty::U32 | Ty::Rune | Ty::F32 => 4,
        _ => 8,
    }
}

/// The natural alignment of a value of type `ty`.
pub fn align_of(ty: Ty) -> (r: u32)
    ensures
        r == align_of_spec(ty),
{
    match ty {
        Ty::Bool | Ty::I8 | Ty::U8 => 1,
        Ty::I16 | Ty::U16 | Ty::F16 => 2,
        Ty::I32 | Ty::U32 | Ty::Rune | Ty::F32 => 4,
        _ => 8,
    }
}

/// `x` rounded up to a multiple of `a`.
pub open spec fn align_up(x: int, a: int) -> int {
    ((x + a - 1) / a) * a
}

/// The byte just past the last field when `tys` are laid out in order.
pub open spec fn fields_end(tys: Seq<Ty>) -> int
    decreases tys.len(),
{
    if tys.len() == 0 {
        0
    } else {
        align_up(fields_end(tys.drop_last()), align_of_spec(tys.last()) as int) + elem_size_of(
            tys.last(),
        )
    }
}

/// Offset of field `i`: the end of the fields before it, aligned.
pub open spec fn field_offset(tys: Seq<Ty>, i: int) -> int {
    align_up(fields_end(tys.take(i)), align_of_spec(tys[i]) as int)
}

/// The strictest field alignment (at least 1).
pub open spec fn struct_align(tys: Seq<Ty>) -> int
    decreases tys.len(),
{
    if tys.len() == 0 {
        1
    } else if align_of_spec(tys.last()) > struct_align(tys.drop_last()) {
        align_of_spec(tys.last()) as int
    } else {
        struct_align(tys.drop_last())
    }
}

/// The total size: the fields' end rounded up to the struct alignment, at
/// least one byte.
pub open spec fn struct_size(tys: Seq<Ty>) -> int {
    let s = align_up(fields_end(tys), struct_align(tys));
    if s == 0 {
        1
    } else {
        s
    }
}

pub open spec fn field_types(fields: Seq<(String, Ty)>) -> Seq<Ty> {
    fields.map_values(|f: (String, Ty)| f.1)
}

proof fn lemma_align_cases(t: Ty)
    ensures
        align_of_spec(t) == 1 || align_of_spec(t) == 2 || align_of_spec(t) == 4 || align_of_spec(t)
            == 8,
        elem_size_of(t) <= 16,
{
}

pub(crate) proof fn lemma_align_up(x: int, a: int)
    requires
        x >= 0,
        a == 1 || a == 2 || a == 4 || a == 8,
    ensures
        x <= align_up(x, a) < x + a,
        align_up(x, a) % a == 0,
{
}

proof fn lemma_struct_align(tys: Seq<Ty>)
    ensures
        struct_align(tys) == 1 || struct_align(tys) == 2 || struct_align(tys) == 4
            || struct_align(tys) == 8,
        forall|i: int| 0 <= i < tys.len() ==> align_of_spec(#[trigger] tys[i]) <= struct_align(tys),
    decreases tys.len(),
{
    if tys.len() > 0 {
        lemma_struct_align(tys.drop_last());
        lemma_align_cases(tys.last());
        assert forall|i: int| 0 <= i < tys.len() implies align_of_spec(#[trigger] tys[i])
            <= struct_align(tys) by {
            if i < tys.len() - 1 {
                assert(tys[i] == tys.drop_last()[i]);
            }
        }
    }
}

proof fn lemma_fields_end_grows(tys: Seq<Ty>)
    ensures
        fields_end(tys) >= 0,
        fields_end(tys) <= 24 * tys.len(),
    decreases tys.len(),
{
    if tys.len() > 0 {
        lemma_fields_end_grows(tys.drop_last());
        lemma_align_cases(tys.last());
        lemma_align_up(fields_end(tys.drop_last()), align_of_spec(tys.last()) as int);
    }
}

/// The mask form of rounding up used at run time equals `align_up`.
pub(crate) proof fn lemma_mask_round(x: u32, a: u32)
    requires
        a == 1 || a == 2 || a == 4 || a == 8,
        x + a - 1 <= 0xffff_ffff,
    ensures
        ((x + (a - 1)) as u32 & !((a - 1) as u32)) as int == align_up(x as int, a as int),
{
    if a == 1 {
        assert(((x + 0u32) as u32 & !0u32) == x) by (bit_vector);
    } else if a == 2 {
        assert(((x + 1u32) as u32 & !1u32) == ((x + 1) / 2) * 2) by (bit_vector)
            requires
                x <= 0xffff_fffe,
        ;
    } else if a == 4 {
        assert(((x + 3u32) as u32 & !3u32) == ((x + 3) / 4) * 4) by (bit_vector)
            requires
                x <= 0xffff_fffc,
        ;
    } else {
        assert(((x + 7u32) as u32 & !7u32) == ((x + 7) / 8) * 8) by (bit_vector)
            requires
                x <= 0xffff_fff8,
        ;
    }
}

/// A rounded-up value that fits 32 bits leaves room to round its input.
proof fn lemma_round_room(x: int, a: int)
    requires
        x >= 0,
        a == 1 || a == 2 || a == 4 || a == 8,
        align_up(x, a) <= 0xffff_ffff,
    ensures
        x + a - 1 <= 0xffff_ffff,
{
    let k = (x + a - 1) / a;
    assert(align_up(x, a) == k * a);
    if a == 1 {
    } else if a == 2 {
        assert(x + 1 <= 0xffff_ffff) by (nonlinear_arith)
            requires
                k == (x + 1) / 2,
                k * 2 <= 0xffff_ffff,
                x >= 0,
        ;
    } else if a == 4 {
        assert(x + 3 <= 0xffff_ffff) by (nonlinear_arith)
            requires
                k == (x + 3) / 4,
                k * 4 <= 0xffff_ffff,
                x >= 0,
        ;
    } else {
        assert(x + 7 <= 0xffff_ffff) by (nonlinear_arith)
            requires
                k == (x + 7) / 8,
                k * 8 <= 0xffff_ffff,
                x >= 0,
        ;
    }
}

/// Compute the natural layout of `fields`: each field at the next offset
/// aligned for its type, the total size rounded up to the strictest
/// alignment (at least one byte). The size must fit in 32 bits and every
/// offset in an `i32`.
#[verifier::spinoff_prover]
pub fn layout(name: &str, fields: Vec<(String, Ty)>) -> (r: StructLayout)
    requires
        struct_size(field_types(fields@)) <= 0xffff_ffff,
        forall|i: int| 0 <= i < fields@.len() ==> field_offset(field_types(fields@), i) <= 0x7fff_ffff,
    ensures
        r.name@ == name@,
        r.fields@.len() == fields@.len(),
        forall|i: int|
            0 <= i < fields@.len() ==> {
                &&& (#[trigger] r.fields@[i]).name@ == fields@[i].0@
                &&& r.fields@[i].ty == fields@[i].1
                &&& r.fields@[i].offset == field_offset(field_types(fields@), i)
            },
        r.size == struct_size(field_types(fields@)),
        r.align == struct_align(field_types(fields@)),
{
    let ghost tys = field_types(fields@);
    proof {
        lemma_size_covers_end(tys);
    }
    let mut out_fields: Vec<FieldLayout> = Vec::new();
    let mut size: u32 = 0;
    let mut align: u32 = 1;
    let mut i: usize = 0;
    while i < fields.len()
        invariant
            0 <= i <= fields@.len(),
            fields_end(tys) <= struct_size(tys) <= 0xffff_ffff,
            forall|k: int| 0 <= k < tys.len() ==> field_offset(tys, k) <= 0x7fff_ffff,
            tys == field_types(fields@),
            tys.len() == fields@.len(),
            size == fields_end(tys.take(i as int)),
            align == struct_align(tys.take(i as int)),
            out_fields@.len() == i,
            forall|k: int|
                0 <= k < i ==> {
                    &&& (#[trigger] out_fields@[k]).name@ == fields@[k].0@
                    &&& out_fields@[k].ty == fields@[k].1
                    &&& out_fields@[k].offset == field_offset(tys, k)
                },
        decreases fields@.len() - i,
    {
        let fty = fields[i].1;
        let a = align_of(fty);
        proof {
            lemma_align_cases(fty);
            lemma_fields_end_grows(tys.take(i as int));
            lemma_end_monotone(tys, i as int, i + 1);
            lemma_end_monotone(tys, i + 1, tys.len() as int);
            lemma_end_step(tys, i as int);
            assert(tys.take(tys.len() as int) =~= tys);
            let next = tys.take(i + 1);
            assert(next.drop_last() =~= tys.take(i as int));
            assert(next.last() == fty);
            assert(tys[i as int] == fty);
            assert(field_offset(tys, i as int) <= 0x7fff_ffff);
            lemma_mask_round(size, a);
        }
        if a > align {
            align = a;
        }
        size = (size + (a - 1)) & !(a - 1);
        let ghost off = size;
        assert(off as int == field_offset(tys, i as int));
        assert(off <= 0x7fff_ffff);
        let name_i = fields[i].0.clone();
        let ghost prev = out_fields@;
        out_fields.push(FieldLayout { name: name_i, ty: fty, offset: size as i32 });
        size = size + fty.elem_size();
        proof {
            assert(out_fields@[i as int].offset as int == off as int);
            assert(out_fields@[i as int].name@ == fields@[i as int].0@);
            assert(out_fields@[i as int].ty == fields@[i as int].1);
            assert forall|k: int| 0 <= k < i + 1 implies {
                &&& (#[trigger] out_fields@[k]).name@ == fields@[k].0@
                &&& out_fields@[k].ty == fields@[k].1
                &&& out_fields@[k].offset == field_offset(tys, k)
            } by {
                if k < i {
                    assert(out_fields@[k] == prev[k]);
                }
            }
        }
        i += 1;
    }
    proof {
        assert(tys.take(fields@.len() as int) =~= tys);
        lemma_struct_align(tys);
        lemma_fields_end_grows(tys);
        if align_up(fields_end(tys), struct_align(tys)) != 0 {
            lemma_round_room(fields_end(tys), struct_align(tys));
        }
        lemma_mask_round(size, align);
    }
    size = (size + (align - 1)) & !(align - 1);
    if size == 0 {
        size = 1;
    }
    StructLayout { name: owned(name), fields: out_fields, size, align }
}


/// The end of the fields never passes the struct's size.
proof fn lemma_size_covers_end(tys: Seq<Ty>)
    ensures
        fields_end(tys) <= struct_size(tys),
{
    lemma_struct_align(tys);
    lemma_fields_end_grows(tys);
    lemma_align_up(fields_end(tys), struct_align(tys));
}

/// Fields of at most 24 bytes each (with padding) stay under the `i32`
/// bound when there are few enough of them.
pub proof fn lemma_size_of_few_fields(tys: Seq<Ty>)
    requires
        24 * tys.len() <= 0x7fff_ff00,
    ensures
        struct_size(tys) <= 0x7fff_fff0,
        forall|i: int| 0 <= i < tys.len() ==> #[trigger] field_offset(tys, i) <= struct_size(tys),
{
    lemma_struct_align(tys);
    lemma_fields_end_grows(tys);
    lemma_align_up(fields_end(tys), struct_align(tys));
    assert forall|i: int| 0 <= i < tys.len() implies #[trigger] field_offset(tys, i) <= struct_size(tys) by {
        lemma_end_step(tys, i);
        lemma_end_monotone(tys, i + 1, tys.len() as int);
        lemma_align_cases(tys[i]);
        assert(tys.take(tys.len() as int) =~= tys);
    }
}

proof fn lemma_end_step(tys: Seq<Ty>, i: int)
    requires
        0 <= i < tys.len(),
    ensures
        fields_end(tys.take(i + 1)) == field_offset(tys, i) + elem_size_of(tys[i]),
        field_offset(tys, i) >= fields_end(tys.take(i)),
{
    let next = tys.take(i + 1);
    assert(next.drop_last() =~= tys.take(i));
    assert(next.last() == tys[i]);
    lemma_fields_end_grows(tys.take(i));
    lemma_align_cases(tys[i]);
    lemma_align_up(fields_end(tys.take(i)), align_of_spec(tys[i]) as int);
}

proof fn lemma_end_monotone(tys: Seq<Ty>, i: int, j: int)
    requires
        0 <= i <= j <= tys.len(),
    ensures
        fields_end(tys.take(i)) <= fields_end(tys.take(j)),
    decreases j - i,
{
    if i < j {
        lemma_end_monotone(tys, i, j - 1);
        lemma_end_step(tys, j - 1);
    }
}

/// Every field of a struct layout starts at an offset aligned for its type.
pub proof fn lemma_field_offset_aligned(tys: Seq<Ty>, i: int)
    requires
        0 <= i < tys.len(),
    ensures
        field_offset(tys, i) % (align_of_spec(tys[i]) as int) == 0,
        field_offset(tys, i) >= 0,
{
    lemma_fields_end_grows(tys.take(i));
    lemma_align_cases(tys[i]);
    lemma_align_up(fields_end(tys.take(i)), align_of_spec(tys[i]) as int);
}

/// Fields are laid out in order and never overlap.
pub proof fn lemma_fields_disjoint(tys: Seq<Ty>, i: int, j: int)
    requires
        0 <= i < j < tys.len(),
    ensures
        field_offset(tys, i) + elem_size_of(tys[i]) <= field_offset(tys, j),
{
    lemma_end_step(tys, i);
    lemma_end_monotone(tys, i + 1, j);
    lemma_end_step(tys, j);
}

/// The struct size covers every field and is at least one byte; it is a
/// multiple of the struct alignment unless every field is empty (`void`),
/// and the alignment is a power of two no larger than 8.
pub proof fn lemma_struct_size_covers(tys: Seq<Ty>, i: int)
    requires
        0 <= i < tys.len(),
    ensures
        field_offset(tys, i) + elem_size_of(tys[i]) <= struct_size(tys),
        struct_size(tys) >= 1,
        fields_end(tys) > 0 ==> struct_size(tys) % struct_align(tys) == 0,
        struct_align(tys) == 1 || struct_align(tys) == 2 || struct_align(tys) == 4
            || struct_align(tys) == 8,
{
    lemma_end_step(tys, i);
    lemma_end_monotone(tys, i + 1, tys.len() as int);
    assert(tys.take(tys.len() as int) =~= tys);
    lemma_struct_align(tys);
    lemma_fields_end_grows(tys);
    lemma_align_up(fields_end(tys), struct_align(tys));
}

// ---------------------------------------------------------------------------
// Coercion and promotion
// ---------------------------------------------------------------------------

/// The common type of two binary operands (see [`common_type`]).
pub open spec fn common_type_spec(a: Ty, b: Ty) -> Option<Ty> {
    if a == b {
        Some(a)
    } else if a is Ptr && is_int_ty(b) {
        Some(a)
    } else if b is Ptr && is_int_ty(a) {
        Some(b)
    } else if is_float_ty(a) || is_float_ty(b) {
        if !is_float_ty(a) || !is_float_ty(b) {
            None
        } else if bits_of(a) >= bits_of(b) {
            Some(a)
        } else {
            Some(b)
        }
    } else if !is_int_ty(a) || !is_int_ty(b) {
        None
    } else if bits_of(a) == bits_of(b) {
        if is_signed_ty(a) {
            Some(a)
        } else {
            Some(b)
        }
    } else if bits_of(a) > bits_of(b) {
        Some(a)
    } else {
        Some(b)
    }
}

/// The common type of two operands is one of them, and the wider one: two
/// floats combine at the larger width; two integers at the larger width, and
/// at equal width as the signed one; a pointer absorbs an integer; a float
/// never combines with a non-float. The same type combines with itself, and
/// the order of two floats does not matter.
pub proof fn lemma_common_type_laws(a: Ty, b: Ty)
    ensures
        common_type_spec(a, b) matches Some(t) ==> (t == a || t == b),
        common_type_spec(a, a) == Some(a),
        is_float_ty(a) && is_float_ty(b) ==> common_type_spec(a, b) == common_type_spec(b, a),
        is_float_ty(a) && is_float_ty(b) && bits_of(a) < bits_of(b) ==> common_type_spec(a, b) == Some(b),
        is_float_ty(a) && is_float_ty(b) && bits_of(b) < bits_of(a) ==> common_type_spec(a, b) == Some(a),
        is_float_ty(a) != is_float_ty(b) ==> common_type_spec(a, b) is None,
        is_int_ty(a) && is_int_ty(b) && bits_of(a) < bits_of(b) ==> common_type_spec(a, b) == Some(b),
        is_int_ty(a) && is_int_ty(b) && bits_of(b) < bits_of(a) ==> common_type_spec(a, b) == Some(a),
        is_int_ty(a) && is_int_ty(b) && a != b && bits_of(a) == bits_of(b) && is_signed_ty(a) ==> common_type_spec(
            a,
            b,
        ) == Some(a),
        is_int_ty(a) && is_int_ty(b) && a != b && bits_of(a) == bits_of(b) && is_signed_ty(b) && !is_signed_ty(a)
            ==> common_type_spec(a, b) == Some(b),
        is_int_ty(a) && is_int_ty(b) ==> common_type_spec(a, b) is Some,
        a is Ptr && is_int_ty(b) ==> common_type_spec(a, b) == Some(a),
        b is Ptr && is_int_ty(a) ==> common_type_spec(a, b) == Some(b),
{
}

/// Pick a common type for binary operands: the wider of the two; when
/// equally wide and one side is signed, the signed side, so negative values
/// survive. `pointer<T> + int` keeps the pointer (raw address arithmetic).
pub fn common_type(a: Ty, b: Ty) -> (r: Option<Ty>)
    ensures
        r == common_type_spec(a, b),
{
    if a == b {
        return Some(a);
    }
    if matches!(a, Ty::Ptr(_)) && b.is_int() {
        return Some(a);
    }
    if matches!(b, Ty::Ptr(_)) && a.is_int() {
        return Some(b);
    }
    if a.is_float() || b.is_float() {
        if !a.is_float() || !b.is_float() {
            return None;
        }
        return Some(if a.bits() >= b.bits() { a } else { b });
    }
    if !a.is_int() || !b.is_int() {
        return None;
    }
    if a.bits() == b.bits() {
        return Some(if a.is_signed() { a } else { b });
    }
    Some(if a.bits() > b.bits() { a } else { b })
}

/// The conversions code generation accepts from `from` to `to`.
pub open spec fn coercible_spec(from: Ty, to: Ty) -> bool {
    ||| from == to
    ||| (to is Ptr && is_pointer_ty(from))
    ||| (is_pointer_ty(to) && is_int_ty(from))
    ||| (is_pointer_ty(from) && to == Ty::I64)
    ||| (from == Ty::Bool && is_int_ty(to) && to != Ty::Bool)
    ||| (is_int_ty(from) && from != Ty::Bool && to == Ty::Bool)
    ||| (is_int_ty(from) && is_int_ty(to) && from != Ty::Bool && to != Ty::Bool)
    ||| (is_float_ty(from) && is_float_ty(to))
    ||| (is_int_ty(from) && is_float_ty(to))
    ||| (is_float_ty(from) && is_int_ty(to))
}

/// Whether `from` can be coerced to `to`, so that union member selection can
/// probe candidate types without forcing an error.
pub fn coercible(from: Ty, to: Ty) -> (r: bool)
    ensures
        r == coercible_spec(from, to),
{
    if from == to {
        return true;
    }
    if matches!(to, Ty::Ptr(_)) && from.is_pointer() {
        return true;
    }
    if to.is_pointer() && from.is_int() {
        return true;
    }
    if from.is_pointer() && to == Ty::I64 {
        return true;
    }
    if from.is_bool() && to.is_int() && !to.is_bool() {
        return true;
    }
    if from.is_int() && !from.is_bool() && to.is_bool() {
        return true;
    }
    if from.is_int() && to.is_int() && !from.is_bool() && !to.is_bool() {
        return true;
    }
    if from.is_float() && to.is_float() {
        return true;
    }
    if from.is_int() && to.is_float() {
        return true;
    }
    if from.is_float() && to.is_int() {
        return true;
    }
    false
}

/// Both operands of a binary operation can be coerced to their common type.
pub proof fn lemma_common_type_coercible(a: Ty, b: Ty)
    ensures
        common_type_spec(a, b) matches Some(c) ==> coercible_spec(a, c) && coercible_spec(b, c),
{
}

/// Every type coerces to itself and is its own common type.
pub proof fn lemma_coercible_reflexive(t: Ty)
    ensures
        coercible_spec(t, t),
        common_type_spec(t, t) == Some(t),
{
}

/// For integers of one width, the common type is signed whenever either
/// side is; otherwise the wider side wins.
pub proof fn lemma_common_type_prefers_signed(a: Ty, b: Ty)
    requires
        is_int_ty(a),
        is_int_ty(b),
    ensures
        common_type_spec(a, b) is Some,
        bits_of(a) == bits_of(b) && (is_signed_ty(a) || is_signed_ty(b)) ==> is_signed_ty(
            common_type_spec(a, b)->0,
        ),
        bits_of(a) > bits_of(b) ==> common_type_spec(a, b) == Some(a),
        bits_of(a) < bits_of(b) ==> common_type_spec(a, b) == Some(b),
{
}

} // verus!
