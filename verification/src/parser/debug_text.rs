//! The `{:?}` text of a source type, as messages quote it: the derived
//! `Debug` layout of `Type`, `TypeKind`, `Primitive` and `Location`, with
//! names shown as escaped string literals.

use vstd::prelude::*;
use crate::parser::ast::{Primitive, Type, TypeKind};
use crate::text::{decimal, decimal_spec, owned, push_str};
use crate::token::Location;

verus! {

/// What `char::escape_debug` makes of `c`.
pub uninterp spec fn escaped_char(c: char) -> Seq<char>;

/// `char::escape_debug`: the escape sequence of a character as `Debug`
/// prints it (the character itself when printable). The text depends on the
/// character alone and is named `escaped_char`.
#[verifier::external_body]
fn escape_char(c: char) -> (r: String)
    ensures
        r@ == escaped_char(c),
{
    c.escape_debug().to_string()
}

/// The body of a string's `Debug` text: each character escaped, except
/// that a single quote stays as it is.
pub open spec fn escaped_text(s: Seq<char>) -> Seq<char>
    decreases s.len(),
{
    if s.len() == 0 {
        Seq::empty()
    } else {
        escaped_text(s.drop_last()) + if s.last() == '\'' {
            seq!['\'']
        } else {
            escaped_char(s.last())
        }
    }
}

/// A string's `Debug` text: escaped, in double quotes.
pub open spec fn string_debug(s: Seq<char>) -> Seq<char> {
    "\""@ + escaped_text(s) + "\""@
}

pub open spec fn primitive_debug(p: Primitive) -> Seq<char> {
    match p {
        Primitive::I8 => "I8"@,
        Primitive::I16 => "I16"@,
        Primitive::I32 => "I32"@,
        Primitive::I64 => "I64"@,
        Primitive::I128 => "I128"@,
        Primitive::U8 => "U8"@,
        Primitive::U16 => "U16"@,
        Primitive::U32 => "U32"@,
        Primitive::U64 => "U64"@,
        Primitive::U128 => "U128"@,
        Primitive::F16 => "F16"@,
        Primitive::F32 => "F32"@,
        Primitive::F64 => "F64"@,
        Primitive::F128 => "F128"@,
        Primitive::String => "String"@,
        Primitive::Rune => "Rune"@,
        Primitive::Bool => "Bool"@,
        Primitive::Void => "Void"@,
        Primitive::Error => "Error"@,
        Primitive::Type => "Type"@,
    }
}

pub open spec fn location_debug(l: Location) -> Seq<char> {
    "Location { line: "@ + decimal_spec(l.line as nat) + ", column: "@ + decimal_spec(l.column as nat)
        + ", offset: "@ + decimal_spec(l.offset as nat) + " }"@
}

/// The `{:?}` text of a source type.
pub open spec fn type_debug(t: Type) -> Seq<char>
    decreases t, 1int,
{
    "Type { kind: "@ + kind_debug(t.kind) + ", location: "@ + location_debug(t.location) + " }"@
}

pub open spec fn kind_debug(k: TypeKind) -> Seq<char>
    decreases k, 0int,
{
    match k {
        TypeKind::Named(n) => "Named("@ + string_debug(n@) + ")"@,
        TypeKind::Primitive(p) => "Primitive("@ + primitive_debug(p) + ")"@,
        TypeKind::Array { element, size } => "Array { element: "@ + type_debug(*element) + ", size: "@
            + match size {
            Some(n) => "Some("@ + decimal_spec(n as nat) + ")"@,
            None => "None"@,
        } + " }"@,
        TypeKind::List { element } => "List { element: "@ + type_debug(*element) + " }"@,
        TypeKind::Hashmap { key, value } => "Hashmap { key: "@ + type_debug(*key) + ", value: "@
            + type_debug(*value) + " }"@,
        TypeKind::Reference { inner } => "Reference { inner: "@ + type_debug(*inner) + " }"@,
        TypeKind::Pointer { inner } => "Pointer { inner: "@ + type_debug(*inner) + " }"@,
        TypeKind::Union(ts) => "Union(["@ + types_debug(ts@) + "])"@,
    }
}

/// The `{:?}` texts of types, separated by `, `.
pub open spec fn types_debug(ts: Seq<Type>) -> Seq<char>
    decreases ts, 2int,
{
    if ts.len() == 0 {
        Seq::empty()
    } else if ts.len() == 1 {
        type_debug(ts[0])
    } else {
        types_debug(ts.drop_last()) + ", "@ + type_debug(ts.last())
    }
}

fn string_debug_text(s: &str) -> (r: String)
    ensures
        r@ == string_debug(s@),
{
    let cs = crate::text::chars_of(s);
    let mut out = owned("\"");
    let mut i: usize = 0;
    while i < cs.len()
        invariant
            0 <= i <= cs@.len(),
            cs@ == s@,
            out@ == "\""@ + escaped_text(cs@.take(i as int)),
        decreases cs@.len() - i,
    {
        proof {
            assert(cs@.take(i + 1).drop_last() =~= cs@.take(i as int));
            assert(cs@.take(i + 1).last() == cs@[i as int]);
        }
        let ghost before = out@;
        if cs[i] == '\'' {
            crate::text::push_char(&mut out, '\'');
            assert(out@ =~= "\""@ + escaped_text(cs@.take(i + 1)));
        } else {
            let e = escape_char(cs[i]);
            push_str(&mut out, e.as_str());
            assert(out@ =~= "\""@ + escaped_text(cs@.take(i + 1)));
        }
        i += 1;
    }
    assert(cs@.take(i as int) =~= s@);
    push_str(&mut out, "\"");
    out
}

fn primitive_debug_text(p: Primitive) -> (r: &'static str)
    ensures
        r@ == primitive_debug(p),
{
    match p {
        Primitive::I8 => "I8",
        Primitive::I16 => "I16",
        Primitive::I32 => "I32",
        Primitive::I64 => "I64",
        Primitive::I128 => "I128",
        Primitive::U8 => "U8",
        Primitive::U16 => "U16",
        Primitive::U32 => "U32",
        Primitive::U64 => "U64",
        Primitive::U128 => "U128",
        Primitive::F16 => "F16",
        Primitive::F32 => "F32",
        Primitive::F64 => "F64",
        Primitive::F128 => "F128",
        Primitive::String => "String",
        Primitive::Rune => "Rune",
        Primitive::Bool => "Bool",
        Primitive::Void => "Void",
        Primitive::Error => "Error",
        Primitive::Type => "Type",
    }
}

fn location_debug_text(l: Location) -> (r: String)
    ensures
        r@ == location_debug(l),
{
    let mut out = owned("Location { line: ");
    push_str(&mut out, decimal(l.line as u64).as_str());
    push_str(&mut out, ", column: ");
    push_str(&mut out, decimal(l.column as u64).as_str());
    push_str(&mut out, ", offset: ");
    push_str(&mut out, decimal(l.offset as u64).as_str());
    push_str(&mut out, " }");
    out
}

/// The `{:?}` text of a source type (see `type_debug`).
pub fn type_debug_text(t: &Type) -> (r: String)
    ensures
        r@ == type_debug(*t),
    decreases t,
{
    let mut out = owned("Type { kind: ");
    let kind = match &t.kind {
        TypeKind::Named(n) => {
            let mut k = owned("Named(");
            push_str(&mut k, string_debug_text(n.as_str()).as_str());
            push_str(&mut k, ")");
            k
        },
        TypeKind::Primitive(p) => {
            let mut k = owned("Primitive(");
            push_str(&mut k, primitive_debug_text(*p));
            push_str(&mut k, ")");
            k
        },
        TypeKind::Array { element, size } => {
            let mut k = owned("Array { element: ");
            push_str(&mut k, type_debug_text(element).as_str());
            push_str(&mut k, ", size: ");
            match size {
                Some(n) => {
                    push_str(&mut k, "Some(");
                    push_str(&mut k, decimal(*n).as_str());
                    push_str(&mut k, ")");
                },
                None => push_str(&mut k, "None"),
            }
            push_str(&mut k, " }");
            k
        },
        TypeKind::List { element } => {
            let mut k = owned("List { element: ");
            push_str(&mut k, type_debug_text(element).as_str());
            push_str(&mut k, " }");
            k
        },
        TypeKind::Hashmap { key, value } => {
            let mut k = owned("Hashmap { key: ");
            push_str(&mut k, type_debug_text(key).as_str());
            push_str(&mut k, ", value: ");
            push_str(&mut k, type_debug_text(value).as_str());
            push_str(&mut k, " }");
            k
        },
        TypeKind::Reference { inner } => {
            let mut k = owned("Reference { inner: ");
            push_str(&mut k, type_debug_text(inner).as_str());
            push_str(&mut k, " }");
            k
        },
        TypeKind::Pointer { inner } => {
            let mut k = owned("Pointer { inner: ");
            push_str(&mut k, type_debug_text(inner).as_str());
            push_str(&mut k, " }");
            k
        },
        TypeKind::Union(ts) => {
            let mut k = owned("Union([");
            let mut i: usize = 0;
            assert(ts@.take(0) =~= Seq::<Type>::empty());
            while i < ts.len()
                invariant
                    0 <= i <= ts@.len(),
                    k@ == "Union(["@ + types_debug(ts@.take(i as int)),
                    t.kind == TypeKind::Union(*ts),
                decreases ts@.len() - i,
            {
                proof {
                    assert(ts@.take(i + 1).drop_last() =~= ts@.take(i as int));
                    assert(ts@.take(i + 1).last() == ts@[i as int]);
                }
                if i > 0 {
                    push_str(&mut k, ", ");
                } else {
                    assert(ts@.take(1)[0] == ts@[0]);
                }
                proof {
                    assert(decreases_to!(*t => t.kind));
                    assert(decreases_to!(t.kind => t.kind->Union_0));
                    assert(t.kind->Union_0 == *ts);
                    assert(decreases_to!(*ts => ts@));
                    assert(decreases_to!(ts@ => ts@[i as int]));
                }
                push_str(&mut k, type_debug_text(&ts[i]).as_str());
                i += 1;
            }
            assert(ts@.take(i as int) =~= ts@);
            push_str(&mut k, "])");
            k
        },
    };
    assert(kind@ == kind_debug(t.kind));
    push_str(&mut out, kind.as_str());
    push_str(&mut out, ", location: ");
    push_str(&mut out, location_debug_text(t.location).as_str());
    push_str(&mut out, " }");
    out
}

} // verus!
