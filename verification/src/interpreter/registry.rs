//! The declarations the interpreter knows: structs with their field layout,
//! enums with their member values, unions with their member types, and
//! error types with their interned tags.

use vstd::prelude::*;
use crate::compiler::types::{
    align_of_spec, align_up, elem_size_of, field_offset, fields_end, lemma_align_up, lemma_mask_round, primitive_ty_of,
    struct_align, struct_size, Ty,
};
use crate::diagnostics::span::span_at;
use crate::diagnostics::Span;
use crate::parser::ast::{EnumDecl, EnumMember, ErrorDecl, Field, Primitive, StructDecl, Type, TypeKind, UnionDecl};
use crate::parser::literals::{decode_int_literal, int_literal_value, quoted_message};
use crate::parser::debug_text::{type_debug, type_debug_text};
use vstd::wrapping::i64_specs::wrapping_add;
use vstd::wrapping::u32_specs::wrapping_add as wrapping_add_u32;
use crate::text::{chars_of, owned, push_str, slice_chars, str_eq, string_of_chars};
use super::name_map::NameMap;
use super::{primitive_kind, primitive_kind_code, primitive_name_kind, primitive_to_kind, same_member, InterpretError, MemberTy, KIND_ERROR};

verus! {

/// Runtime kind of a heap string.
pub const KIND_STRING: u64 = 16;

/// Runtime kind tag of a list (element kind in the bits above the tag).
pub const KIND_LIST: u64 = 0x20;

/// Runtime kind tag of a hashmap (key and value kinds above the tag).
pub const KIND_MAP: u64 = 0x30;

/// Runtime kind tag of a struct (its id above the tag).
pub const KIND_STRUCT: u64 = 0x40;

/// Runtime kind tag of a union (its id above the tag).
pub const KIND_UNION: u64 = 0x70;

/// The text of an `E393` message: "interpreter does not support `what` yet".
pub open spec fn unsupported_text(what: Seq<char>) -> Seq<char> {
    "interpreter does not support "@ + what + " yet"@
}


/// Size and alignment of a field of runtime kind `kind`.
pub open spec fn kind_slot(kind: u64) -> (u32, u32) {
    if kind == 0 || kind == 1 || kind == 6 {
        (1, 1)
    } else if kind == 2 || kind == 7 || kind == 12 {
        (2, 2)
    } else if kind == 3 || kind == 8 || kind == 11 || kind == 13 {
        (4, 4)
    } else {
        (8, 8)
    }
}

/// `(kind, size, align)` of a field of type `t`, or the (sub)type that has
/// no interpreter layout.
pub open spec fn field_slot(
    structs: Map<Seq<char>, u32>,
    unions: Map<Seq<char>, u32>,
    enums: Map<Seq<char>, u32>,
    t: Type,
) -> Result<(u64, u32, u32), Type>
    decreases t,
{
    match t.kind {
        TypeKind::Primitive(p) => match primitive_kind(p) {
            Some(k) => Ok((k, kind_slot(k).0, kind_slot(k).1)),
            None => Err(t),
        },
        TypeKind::Named(n) => if n@ == "string"@ {
            Ok((KIND_STRING, 8, 8))
        } else if structs.contains_key(n@) {
            Ok((KIND_STRUCT | ((structs[n@] as u64) << 8u64), 8, 8))
        } else if unions.contains_key(n@) {
            Ok((KIND_UNION | ((unions[n@] as u64) << 8u64), 8, 8))
        } else if enums.contains_key(n@) {
            Ok((4, 8, 8))
        } else {
            Err(t)
        },
        TypeKind::Reference { inner } => field_slot(structs, unions, enums, *inner),
        TypeKind::List { element } => match field_slot(structs, unions, enums, *element) {
            Ok(e) => Ok((KIND_LIST | (e.0 << 8u64), 8, 8)),
            Err(bad) => Err(bad),
        },
        TypeKind::Hashmap { key, value } => match field_slot(structs, unions, enums, *key) {
            Ok(k) => match field_slot(structs, unions, enums, *value) {
                Ok(v) => Ok((KIND_MAP | (k.0 << 8u64) | (v.0 << 40u64), 8, 8)),
                Err(bad) => Err(bad),
            },
            Err(bad) => Err(bad),
        },
        _ => Err(t),
    }
}

/// The message about a field type without an interpreter layout: a name
/// is quoted, any other type is shown by its `Debug` text.
pub open spec fn field_type_message(bad: Type) -> Seq<char> {
    match bad.kind {
        TypeKind::Named(n) => unsupported_text("field type '"@ + n@ + "'"@),
        _ => unsupported_text("field type "@ + type_debug(bad)),
    }
}

/// The message about a union member type the interpreter cannot store.
pub open spec fn member_message(bad: Type) -> Seq<char> {
    unsupported_text("union member "@ + type_debug(bad))
}

/// Every field slot has a size and an alignment of 1, 2, 4 or 8, equal.
pub proof fn lemma_field_slot_sizes(
    structs: Map<Seq<char>, u32>,
    unions: Map<Seq<char>, u32>,
    enums: Map<Seq<char>, u32>,
    t: Type,
)
    ensures
        field_slot(structs, unions, enums, t) matches Ok(s) ==> {
            &&& s.1 == s.2
            &&& (s.2 == 1 || s.2 == 2 || s.2 == 4 || s.2 == 8)
        },
    decreases t,
{
    match t.kind {
        TypeKind::Reference { inner } => lemma_field_slot_sizes(structs, unions, enums, *inner),
        _ => {},
    }
}

/// The byte just past the last field when fields of the given
/// `(kind, size, align)` slots are laid out in order.
pub open spec fn slots_end(slots: Seq<(u64, u32, u32)>) -> int
    decreases slots.len(),
{
    if slots.len() == 0 {
        0
    } else {
        align_up(slots_end(slots.drop_last()), slots.last().2 as int) + slots.last().1
    }
}

/// Offset of field `i`: the end of the fields before it, aligned.
pub open spec fn slot_offset(slots: Seq<(u64, u32, u32)>, i: int) -> int {
    align_up(slots_end(slots.take(i)), slots[i].2 as int)
}

/// The strictest field alignment (at least 1).
pub open spec fn slots_align(slots: Seq<(u64, u32, u32)>) -> int
    decreases slots.len(),
{
    if slots.len() == 0 {
        1
    } else if slots.last().2 > slots_align(slots.drop_last()) {
        slots.last().2 as int
    } else {
        slots_align(slots.drop_last())
    }
}

/// A struct's size: the fields' end rounded up to the strictest alignment,
/// and one byte for a struct without bytes.
pub open spec fn slots_size(slots: Seq<(u64, u32, u32)>) -> int {
    let s = align_up(slots_end(slots), slots_align(slots));
    if s == 0 {
        1
    } else {
        s
    }
}

/// Slots whose sizes and alignments are 1, 2, 4 or 8, equal.
pub open spec fn slots_ok(slots: Seq<(u64, u32, u32)>) -> bool {
    forall|i: int|
        0 <= i < slots.len() ==> {
            &&& (#[trigger] slots[i]).1 == slots[i].2
            &&& (slots[i].2 == 1 || slots[i].2 == 2 || slots[i].2 == 4 || slots[i].2 == 8)
        }
}

/// Rounding up never passes a multiple of the alignment above the value.
proof fn lemma_align_up_below(x: int, m: int, a: int)
    requires
        0 <= x <= m,
        a == 1 || a == 2 || a == 4 || a == 8,
        m % a == 0,
    ensures
        align_up(x, a) <= m,
{
    lemma_align_up(x, a);
    let u = align_up(x, a);
    if a == 2 {
        assert(u <= m) by (nonlinear_arith)
            requires
                u % 2 == 0,
                m % 2 == 0,
                u < m + 2,
        ;
    } else if a == 4 {
        assert(u <= m) by (nonlinear_arith)
            requires
                u % 4 == 0,
                m % 4 == 0,
                u < m + 4,
        ;
    } else if a == 8 {
        assert(u <= m) by (nonlinear_arith)
            requires
                u % 8 == 0,
                m % 8 == 0,
                u < m + 8,
        ;
    }
}

proof fn lemma_slots_bounds(slots: Seq<(u64, u32, u32)>)
    requires
        slots_ok(slots),
    ensures
        0 <= slots_end(slots) <= 8 * slots.len(),
        slots_align(slots) == 1 || slots_align(slots) == 2 || slots_align(slots) == 4
            || slots_align(slots) == 8,
    decreases slots.len(),
{
    if slots.len() > 0 {
        let d = slots.drop_last();
        assert forall|i: int| 0 <= i < d.len() implies {
            &&& (#[trigger] d[i]).1 == d[i].2
            &&& (d[i].2 == 1 || d[i].2 == 2 || d[i].2 == 4 || d[i].2 == 8)
        } by {
            assert(d[i] == slots[i]);
        }
        lemma_slots_bounds(d);
        let last = slots[slots.len() - 1];
        lemma_align_up(slots_end(d), last.2 as int);
        lemma_align_up_below(slots_end(d), (8 * d.len()) as int, last.2 as int);
    }
}

/// The slots of `fields` in order, or the first field type without one.
pub open spec fn decl_slots(
    structs: Map<Seq<char>, u32>,
    unions: Map<Seq<char>, u32>,
    enums: Map<Seq<char>, u32>,
    fields: Seq<Field>,
) -> Result<Seq<(u64, u32, u32)>, Type>
    decreases fields.len(),
{
    if fields.len() == 0 {
        Ok(Seq::empty())
    } else {
        match decl_slots(structs, unions, enums, fields.drop_last()) {
            Ok(s) => match field_slot(structs, unions, enums, fields.last().ty) {
                Ok(x) => Ok(s.push(x)),
                Err(bad) => Err(bad),
            },
            Err(bad) => Err(bad),
        }
    }
}

/// Once a prefix of the fields has no layout, neither do all of them.
proof fn lemma_decl_slots_err(
    structs: Map<Seq<char>, u32>,
    unions: Map<Seq<char>, u32>,
    enums: Map<Seq<char>, u32>,
    fields: Seq<Field>,
    j: int,
)
    requires
        0 <= j <= fields.len(),
        decl_slots(structs, unions, enums, fields.take(j)) is Err,
    ensures
        decl_slots(structs, unions, enums, fields) == decl_slots(structs, unions, enums, fields.take(j)),
    decreases fields.len() - j,
{
    if j < fields.len() {
        let t = fields.take(j + 1);
        assert(t.drop_last() =~= fields.take(j));
        lemma_decl_slots_err(structs, unions, enums, fields, j + 1);
    } else {
        assert(fields.take(j) =~= fields);
    }
}

/// The laid-out struct `info` is `name` with `fields` in `slots`.
pub open spec fn laid_out(info: StructInfo, name: Seq<char>, fields: Seq<Field>, slots: Seq<(u64, u32, u32)>) -> bool {
    &&& info.name@ == name
    &&& info.fields@.len() == fields.len()
    &&& slots.len() == fields.len()
    &&& forall|i: int|
        0 <= i < fields.len() ==> {
            &&& (#[trigger] info.fields@[i]).name@ == fields[i].name@
            &&& info.fields@[i].kind == slots[i].0
            &&& info.fields@[i].offset == slot_offset(slots, i)
            &&& info.fields@[i].size == slots[i].1
        }
    &&& info.size == slots_size(slots)
}

/// The values of enum members from the first on, numbering from `next`: a
/// member with a literal takes its value (truncated to 64 bits), one
/// without takes one more than the member before it (0 for the first);
/// also the message of the first literal that does not decode.
pub open spec fn member_run(members: Seq<EnumMember>, next: i64) -> (Seq<i64>, Option<Seq<char>>)
    decreases members.len(),
{
    if members.len() == 0 {
        (Seq::empty(), None)
    } else {
        let m = members[0];
        match m.value {
            Some(raw) => match int_literal_value(raw@) {
                Some(x) => {
                    let rest = member_run(members.drop_first(), wrapping_add(x as i64, 1));
                    (seq![x as i64] + rest.0, rest.1)
                },
                None => (Seq::empty(), Some(quoted_message("invalid integer literal '"@, raw@, "'"@))),
            },
            None => {
                let rest = member_run(members.drop_first(), wrapping_add(next, 1));
                (seq![next] + rest.0, rest.1)
            },
        }
    }
}

/// The value of `enum_name.member`: the last registration of that pair.
pub open spec fn enum_value_of(
    entries: Seq<(Seq<char>, Seq<char>, i64)>,
    enum_name: Seq<char>,
    member: Seq<char>,
) -> Option<i64>
    decreases entries.len(),
{
    if entries.len() == 0 {
        None
    } else if entries.last().0 == enum_name && entries.last().1 == member {
        Some(entries.last().2)
    } else {
        enum_value_of(entries.drop_last(), enum_name, member)
    }
}

/// How a union member type is stored: `string` (either spelling), a
/// primitive's kind, a name, through references; anything else (or a
/// primitive without a kind) is the type the interpreter cannot store.
pub open spec fn union_member_spec(t: Type) -> Result<MemberTy, Type>
    decreases t,
{
    match t.kind {
        TypeKind::Primitive(Primitive::String) => Ok(MemberTy::String),
        TypeKind::Named(n) => if n@ == "string"@ {
            Ok(MemberTy::String)
        } else {
            Ok(MemberTy::Named(n))
        },
        TypeKind::Primitive(p) => match primitive_kind(p) {
            Some(k) => Ok(MemberTy::Primitive(k)),
            None => Err(t),
        },
        TypeKind::Reference { inner } => union_member_spec(*inner),
        _ => Err(t),
    }
}

/// The member type of a union, or `E393` for a type the interpreter cannot
/// store in a union.
pub fn union_member_ty(t: &Type) -> (r: Result<MemberTy, InterpretError>)
    ensures
        match union_member_spec(*t) {
            Ok(m) => r matches Ok(x) && same_member(x, m),
            Err(bad) => r matches Err(e) && e.code@ == "E393"@ && e.span == span_at(0, 0, 1, 1)
                && e.message@ == member_message(bad),
        },
    decreases t,
{
    match &t.kind {
        TypeKind::Primitive(Primitive::String) => Ok(MemberTy::String),
        TypeKind::Named(n) => {
            if crate::text::str_eq(n.as_str(), "string") {
                Ok(MemberTy::String)
            } else {
                Ok(MemberTy::Named(n.clone()))
            }
        },
        TypeKind::Primitive(p) => match primitive_to_kind(*p) {
            Some(k) => Ok(MemberTy::Primitive(k)),
            None => Err(bad_member(t)),
        },
        TypeKind::Reference { inner } => union_member_ty(inner),
        _ => Err(bad_member(t)),
    }
}

fn bad_member(t: &Type) -> (r: InterpretError)
    ensures
        r.code@ == "E393"@,
        r.span == span_at(0, 0, 1, 1),
        r.message@ == member_message(*t),
{
    let mut what = owned("union member ");
    let text = type_debug_text(t);
    push_str(&mut what, text.as_str());
    let e = InterpretError::unsupported(what.as_str(), Span::default());
    assert(e.message@ == unsupported_text("union member "@ + text@));
    e
}

/// `x` is how union member type `t` is stored.
pub open spec fn stores_member(t: Type, x: MemberTy) -> bool {
    union_member_spec(t) matches Ok(m) && same_member(x, m)
}

/// A union as the interpreter knows it.
#[derive(Debug)]
pub struct UnionInfo {
    pub name: String,
    /// Member types in declaration order.
    pub members: Vec<MemberTy>,
}

/// Interning `keys` in order into `tags` (`count` tags so far): a known key
/// keeps its tag, a new one gets the next tag. Gives the tags, the count and
/// the tag of each key.
pub open spec fn intern_run(tags: Map<Seq<char>, u32>, count: u32, keys: Seq<Seq<char>>) -> (
    Map<Seq<char>, u32>,
    u32,
    Seq<u32>,
)
    decreases keys.len(),
{
    if keys.len() == 0 {
        (tags, count, Seq::empty())
    } else if tags.contains_key(keys[0]) {
        let rest = intern_run(tags, count, keys.drop_first());
        (rest.0, rest.1, seq![tags[keys[0]]] + rest.2)
    } else {
        let t = wrapping_add_u32(count, 1);
        let rest = intern_run(tags.insert(keys[0], t), t, keys.drop_first());
        (rest.0, rest.1, seq![t] + rest.2)
    }
}

/// Tags run from 1 to `count`, one key per tag.
pub open spec fn tags_ok(tags: Map<Seq<char>, u32>, count: u32) -> bool {
    &&& forall|k: Seq<char>| #[trigger] tags.contains_key(k) ==> 1 <= tags[k] <= count
    &&& forall|k1: Seq<char>, k2: Seq<char>|
        #[trigger] tags.contains_key(k1) && #[trigger] tags.contains_key(k2) && k1 != k2 ==> tags[k1] != tags[k2]
}

/// Interning keeps every known key's tag, gives every key a tag (the one
/// reported for it), and keeps tags distinct, as long as the count does
/// not run past `u32::MAX`.
pub proof fn lemma_intern_keeps_tags(tags: Map<Seq<char>, u32>, count: u32, keys: Seq<Seq<char>>)
    requires
        tags_ok(tags, count),
        count + keys.len() <= u32::MAX,
    ensures
        ({
            let run = intern_run(tags, count, keys);
            &&& tags_ok(run.0, run.1)
            &&& count <= run.1 <= count + keys.len()
            &&& forall|k: Seq<char>| #[trigger] tags.contains_key(k) ==> run.0.contains_key(k) && run.0[k] == tags[k]
            &&& run.2.len() == keys.len()
            &&& forall|i: int| 0 <= i < keys.len() ==> run.0.contains_key(#[trigger] keys[i]) && run.0[keys[i]] == run.2[i]
        }),
    decreases keys.len(),
{
    if keys.len() > 0 {
        let k0 = keys[0];
        let rest = keys.drop_first();
        if tags.contains_key(k0) {
            lemma_intern_keeps_tags(tags, count, rest);
            let r = intern_run(tags, count, rest);
            assert forall|i: int| 0 <= i < keys.len() implies intern_run(tags, count, keys).0.contains_key(#[trigger] keys[i])
                && intern_run(tags, count, keys).0[keys[i]] == intern_run(tags, count, keys).2[i] by {
                if i > 0 {
                    assert(keys[i] == rest[i - 1]);
                }
            }
        } else {
            let t = wrapping_add_u32(count, 1);
            assert(t == count + 1);
            let tags1 = tags.insert(k0, t);
            assert(tags_ok(tags1, t)) by {
                assert forall|k1: Seq<char>, k2: Seq<char>|
                    #[trigger] tags1.contains_key(k1) && #[trigger] tags1.contains_key(k2) && k1 != k2 implies tags1[k1] != tags1[k2] by {
                    if k1 != k0 && k2 != k0 {
                        assert(tags.contains_key(k1) && tags.contains_key(k2));
                    } else if k1 == k0 {
                        assert(tags.contains_key(k2));
                    } else {
                        assert(tags.contains_key(k1));
                    }
                }
            }
            lemma_intern_keeps_tags(tags1, t, rest);
            let run = intern_run(tags, count, keys);
            assert(tags1.contains_key(k0));
            assert forall|k: Seq<char>| #[trigger] tags.contains_key(k) implies run.0.contains_key(k) && run.0[k] == tags[k] by {
                assert(tags1.contains_key(k));
            }
            assert forall|i: int| 0 <= i < keys.len() implies run.0.contains_key(#[trigger] keys[i])
                && run.0[keys[i]] == run.2[i] by {
                if i > 0 {
                    assert(keys[i] == rest[i - 1]);
                } else {
                    assert(tags1.contains_key(keys[0]));
                }
            }
        }
    }
}

/// The interned keys of an error type's members: `Type.MEMBER`.
pub open spec fn error_keys(name: Seq<char>, members: Seq<String>) -> Seq<Seq<char>> {
    Seq::new(members.len(), |i: int| name + "."@ + members[i]@)
}

/// An error type and the tags of its members.
#[derive(Debug)]
pub struct ErrorTypeInfo {
    pub name: String,
    pub members: Vec<(String, u32)>,
}

/// The tag of the first member named `member` in `members`.
pub open spec fn tag_in(members: Seq<(Seq<char>, u32)>, member: Seq<char>) -> Option<u32>
    decreases members.len(),
{
    if members.len() == 0 {
        None
    } else if members[0].0 == member {
        Some(members[0].1)
    } else {
        tag_in(members.drop_first(), member)
    }
}

/// The tag of `member` in the first error type that has it.
pub open spec fn first_type_tag(types: Seq<(Seq<char>, Seq<(Seq<char>, u32)>)>, member: Seq<char>) -> Option<u32>
    decreases types.len(),
{
    if types.len() == 0 {
        None
    } else {
        match tag_in(types[0].1, member) {
            Some(t) => Some(t),
            None => first_type_tag(types.drop_first(), member),
        }
    }
}

/// Index of the last `.` in `s`.
pub open spec fn last_dot(s: Seq<char>) -> Option<int>
    decreases s.len(),
{
    if s.len() == 0 {
        None
    } else if s.last() == '.' {
        Some(s.len() - 1)
    } else {
        last_dot(s.drop_last())
    }
}

/// The tag an error-member type names: `error.MEMBER` looks the member up
/// among the interned keys as written, then in the error types in order;
/// `Type.MEMBER` looks in that error type.
pub open spec fn error_member_tag_spec(
    tags: Map<Seq<char>, u32>,
    type_ids: Map<Seq<char>, u32>,
    types: Seq<(Seq<char>, Seq<(Seq<char>, u32)>)>,
    t: Type,
) -> Option<u32> {
    match t.kind {
        TypeKind::Named(path) => {
            let p = path@;
            if p.len() >= 6 && p.take(6) == "error."@ {
                let member = p.skip(6);
                if tags.contains_key(member) {
                    Some(tags[member])
                } else {
                    first_type_tag(types, member)
                }
            } else {
                match last_dot(p) {
                    Some(j) => {
                        let owner_name = p.take(j);
                        if type_ids.contains_key(owner_name) && (type_ids[owner_name] as int) < types.len() {
                            tag_in(types[type_ids[owner_name] as int].1, p.skip(j + 1))
                        } else {
                            None
                        }
                    },
                    None => None,
                }
            }
        },
        _ => None,
    }
}

/// The runtime kind code of a type as written (`None` when it has none):
/// primitives by their kind, arrays, lists and hashmaps by their element
/// kinds (an array without a count has count 0), names of primitives,
/// structs, unions, enums (`i64`) and error types (the error envelope), and
/// anonymous unions as the error envelope.
pub open spec fn type_kind_spec(
    structs: Map<Seq<char>, u32>,
    unions: Map<Seq<char>, u32>,
    enums: Map<Seq<char>, u32>,
    errors: Map<Seq<char>, u32>,
    t: Type,
) -> Option<u64>
    decreases t,
{
    match t.kind {
        TypeKind::Primitive(p) => primitive_kind(p),
        TypeKind::Array { element, size } => match type_kind_spec(structs, unions, enums, errors, *element) {
            Some(e) => Some(
                0x60u64 | (e << 8u64) | ((match size {
                    Some(n) => n,
                    None => 0u64,
                }) << 40u64),
            ),
            None => None,
        },
        TypeKind::List { element } => match type_kind_spec(structs, unions, enums, errors, *element) {
            Some(e) => Some(KIND_LIST | (e << 8u64)),
            None => None,
        },
        TypeKind::Hashmap { key, value } => match type_kind_spec(structs, unions, enums, errors, *key) {
            Some(k) => match type_kind_spec(structs, unions, enums, errors, *value) {
                Some(v) => Some(KIND_MAP | (k << 8u64) | (v << 40u64)),
                None => None,
            },
            None => None,
        },
        TypeKind::Reference { inner } => type_kind_spec(structs, unions, enums, errors, *inner),
        TypeKind::Named(n) => if primitive_name_kind(n@) is Some {
            primitive_name_kind(n@)
        } else if structs.contains_key(n@) {
            Some(KIND_STRUCT | ((structs[n@] as u64) << 8u64))
        } else if unions.contains_key(n@) {
            Some(KIND_UNION | ((unions[n@] as u64) << 8u64))
        } else if enums.contains_key(n@) {
            Some(4)
        } else if errors.contains_key(n@) {
            Some(KIND_ERROR)
        } else {
            None
        },
        TypeKind::Union(_) => Some(KIND_ERROR),
        TypeKind::Pointer { .. } => None,
    }
}

/// A field slot with the size and alignment the compiler gives type `t`.
pub open spec fn slot_matches(slot: (u64, u32, u32), t: Ty) -> bool {
    slot.1 == elem_size_of(t) && slot.2 == align_of_spec(t)
}

/// Fields whose slots have the compiler's sizes and alignments are laid out
/// by the interpreter exactly as by the compiler: same offsets, same end,
/// same alignment, same size.
pub proof fn lemma_layouts_agree(slots: Seq<(u64, u32, u32)>, tys: Seq<Ty>)
    requires
        slots.len() == tys.len(),
        forall|i: int| 0 <= i < slots.len() ==> slot_matches(#[trigger] slots[i], tys[i]),
    ensures
        slots_end(slots) == fields_end(tys),
        slots_align(slots) == struct_align(tys),
        slots_size(slots) == struct_size(tys),
        forall|i: int| 0 <= i < slots.len() ==> #[trigger] slot_offset(slots, i) == field_offset(tys, i),
    decreases slots.len(),
{
    if slots.len() > 0 {
        let (ds, dt) = (slots.drop_last(), tys.drop_last());
        assert forall|i: int| 0 <= i < ds.len() implies slot_matches(#[trigger] ds[i], dt[i]) by {
            assert(ds[i] == slots[i] && dt[i] == tys[i]);
        }
        lemma_layouts_agree(ds, dt);
        assert(slot_matches(slots[slots.len() - 1], tys[tys.len() - 1]));
        assert forall|i: int| 0 <= i < slots.len() implies #[trigger] slot_offset(slots, i) == field_offset(tys, i) by {
            if i < slots.len() - 1 {
                assert(slots.take(i) =~= ds.take(i));
                assert(tys.take(i) =~= dt.take(i));
                assert(slot_offset(ds, i) == field_offset(dt, i));
            } else {
                assert(slots.take(i) =~= ds);
                assert(tys.take(i) =~= dt);
            }
        }
    }
}

/// A field type that both the interpreter and the compiler store as a
/// primitive of the same width: any primitive the compiler has a physical
/// type for, except `void` (no bytes in the compiler, an `i64` slot here).
pub open spec fn shared_primitive(t: Type) -> bool {
    t.kind matches TypeKind::Primitive(p) && primitive_ty_of(p) is Some && p != Primitive::Void
}

/// The compiler's type of a shared primitive field.
pub open spec fn compiler_ty(t: Type) -> Ty {
    match t.kind {
        TypeKind::Primitive(p) => primitive_ty_of(p)->Some_0,
        _ => Ty::Void,
    }
}

/// A struct of shared primitive fields is laid out by the interpreter as by
/// the compiler: every field at the compiler's offset, and the same size.
pub proof fn lemma_primitive_structs_agree(
    structs: Map<Seq<char>, u32>,
    unions: Map<Seq<char>, u32>,
    enums: Map<Seq<char>, u32>,
    fields: Seq<Field>,
)
    requires
        forall|i: int| 0 <= i < fields.len() ==> shared_primitive(#[trigger] fields[i].ty),
    ensures
        decl_slots(structs, unions, enums, fields) matches Ok(s) && {
            let tys = Seq::new(fields.len(), |i: int| compiler_ty(fields[i].ty));
            &&& s.len() == fields.len()
            &&& slots_size(s) == struct_size(tys)
            &&& forall|i: int| 0 <= i < fields.len() ==> #[trigger] slot_offset(s, i) == field_offset(tys, i)
        },
{
    let tys = Seq::new(fields.len(), |i: int| compiler_ty(fields[i].ty));
    lemma_all_slots_match(structs, unions, enums, fields);
    let s = decl_slots(structs, unions, enums, fields)->Ok_0;
    lemma_layouts_agree(s, tys);
}

proof fn lemma_all_slots_match(
    structs: Map<Seq<char>, u32>,
    unions: Map<Seq<char>, u32>,
    enums: Map<Seq<char>, u32>,
    fields: Seq<Field>,
)
    requires
        forall|i: int| 0 <= i < fields.len() ==> shared_primitive(#[trigger] fields[i].ty),
    ensures
        decl_slots(structs, unions, enums, fields) matches Ok(s) && s.len() == fields.len() && forall|i: int|
            0 <= i < fields.len() ==> slot_matches(#[trigger] s[i], compiler_ty(fields[i].ty)),
    decreases fields.len(),
{
    if fields.len() > 0 {
        let d = fields.drop_last();
        assert forall|i: int| 0 <= i < d.len() implies shared_primitive(#[trigger] d[i].ty) by {
            assert(d[i] == fields[i]);
        }
        lemma_all_slots_match(structs, unions, enums, d);
        let last = fields[fields.len() - 1];
        assert(shared_primitive(last.ty));
        let s = decl_slots(structs, unions, enums, fields)->Ok_0;
        let sd = decl_slots(structs, unions, enums, d)->Ok_0;
        assert forall|i: int| 0 <= i < fields.len() implies slot_matches(#[trigger] s[i], compiler_ty(fields[i].ty)) by {
            if i < fields.len() - 1 {
                assert(s[i] == sd[i]);
                assert(fields[i] == d[i]);
            }
        }
    }
}

/// A field of a struct as the interpreter lays it out.
#[derive(Debug)]
pub struct FieldInfo {
    pub name: String,
    /// Runtime kind of the field value.
    pub kind: u64,
    pub offset: i32,
    pub size: u32,
}

/// A struct as the interpreter lays it out.
#[derive(Debug)]
pub struct StructInfo {
    pub name: String,
    pub fields: Vec<FieldInfo>,
    pub size: u32,
}

/// The registered declarations.
pub struct TypeRegistry {
    struct_ids: NameMap<u32>,
    structs: Vec<StructInfo>,
    enum_ids: NameMap<u32>,
    enum_count: u32,
    enum_members: Vec<(String, String, i64)>,
    union_ids: NameMap<u32>,
    unions: Vec<UnionInfo>,
    error_type_ids: NameMap<u32>,
    error_types: Vec<ErrorTypeInfo>,
    error_tags: NameMap<u32>,
    tag_count: u32,
}

/// A laid-out struct by value: its name, its fields' names, kinds, offsets
/// and sizes, and its size.
pub type StructView = (Seq<char>, Seq<(Seq<char>, u64, i32, u32)>, u32);

pub open spec fn struct_view(info: StructInfo) -> StructView {
    (
        info.name@,
        info.fields@.map_values(|f: FieldInfo| (f.name@, f.kind, f.offset, f.size)),
        info.size,
    )
}

/// The struct `name` with `fields` laid out in `slots`.
pub open spec fn layout_view(name: Seq<char>, fields: Seq<Field>, slots: Seq<(u64, u32, u32)>) -> StructView {
    (
        name,
        Seq::new(fields.len(), |i: int| (fields[i].name@, slots[i].0, slot_offset(slots, i) as i32, slots[i].1)),
        slots_size(slots) as u32,
    )
}

/// A union member type by value.
pub enum MemberView {
    Primitive(u64),
    Named(Seq<char>),
    String,
}

pub open spec fn member_view(m: MemberTy) -> MemberView {
    match m {
        MemberTy::Primitive(k) => MemberView::Primitive(k),
        MemberTy::Named(n) => MemberView::Named(n@),
        MemberTy::String => MemberView::String,
    }
}

/// The first of `types` that a union cannot store (the type its check
/// rejects).
pub open spec fn first_bad_member(types: Seq<Type>) -> Option<Type>
    decreases types.len(),
{
    if types.len() == 0 {
        None
    } else {
        match union_member_spec(types[0]) {
            Err(b) => Some(b),
            Ok(_) => first_bad_member(types.drop_first()),
        }
    }
}

proof fn lemma_first_bad_member(types: Seq<Type>, i: int)
    requires
        0 <= i < types.len(),
        forall|k: int| 0 <= k < i ==> #[trigger] union_member_spec(types[k]) is Ok,
        union_member_spec(types[i]) is Err,
    ensures
        first_bad_member(types) == Some(union_member_spec(types[i])->Err_0),
    decreases i,
{
    if i > 0 {
        let rest = types.drop_first();
        assert forall|k: int| 0 <= k < i - 1 implies #[trigger] union_member_spec(rest[k]) is Ok by {
            assert(rest[k] == types[k + 1]);
        }
        assert(union_member_spec(types[0]) is Ok);
        lemma_first_bad_member(rest, i - 1);
    }
}

/// How every type of `types` is stored in a union, or `None` when one of
/// them cannot be.
pub open spec fn union_members_view(types: Seq<Type>) -> Option<Seq<MemberView>> {
    if forall|i: int| 0 <= i < types.len() ==> #[trigger] union_member_spec(types[i]) is Ok {
        Some(Seq::new(types.len(), |i: int| member_view(union_member_spec(types[i])->Ok_0)))
    } else {
        None
    }
}

/// Why registering a declaration failed: a field type or a union member
/// type the interpreter cannot store, or an enum literal that does not
/// decode (with its message).
pub enum RegFailure {
    Field(Type),
    Member(Type),
    Literal(Seq<char>),
}

/// The error `e` reports failure `f`.
pub open spec fn reports(f: RegFailure, e: InterpretError) -> bool {
    match f {
        RegFailure::Field(bad) => e.code@ == "E393"@ && e.span == span_at(0, 0, 1, 1)
            && e.message@ == field_type_message(bad),
        RegFailure::Member(bad) => e.code@ == "E393"@ && e.span == span_at(0, 0, 1, 1)
            && e.message@ == member_message(bad),
        RegFailure::Literal(m) => e.code@ == "E363"@ && e.span == span_at(0, 0, 1, 1) && e.message@ == m,
    }
}

/// `r` is the outcome `o`: `Ok` when nothing failed, else the error for it.
pub open spec fn outcome(o: Option<RegFailure>, r: Result<(), InterpretError>) -> bool {
    match o {
        None => r is Ok,
        Some(f) => r matches Err(e) && reports(f, e),
    }
}

/// Everything the registry knows, by value.
pub struct RegView {
    pub struct_ids: Map<Seq<char>, u32>,
    pub structs: Seq<StructView>,
    pub enum_ids: Map<Seq<char>, u32>,
    pub enum_count: u32,
    pub enum_members: Seq<(Seq<char>, Seq<char>, i64)>,
    pub union_ids: Map<Seq<char>, u32>,
    pub unions: Seq<(Seq<char>, Seq<MemberView>)>,
    pub error_type_ids: Map<Seq<char>, u32>,
    pub error_types: Seq<(Seq<char>, Seq<(Seq<char>, u32)>)>,
    pub error_tags: Map<Seq<char>, u32>,
    pub tag_count: u32,
}

/// The registry that knows nothing.
pub open spec fn empty_reg() -> RegView {
    RegView {
        struct_ids: Map::empty(),
        structs: Seq::empty(),
        enum_ids: Map::empty(),
        enum_count: 0,
        enum_members: Seq::empty(),
        union_ids: Map::empty(),
        unions: Seq::empty(),
        error_type_ids: Map::empty(),
        error_types: Seq::empty(),
        error_tags: Map::empty(),
        tag_count: 0,
    }
}

/// Registering struct `d`.
pub open spec fn reg_struct(v: RegView, d: StructDecl) -> (RegView, Option<RegFailure>) {
    if v.struct_ids.contains_key(d.name@) {
        (v, None)
    } else {
        let ids = v.struct_ids.insert(d.name@, v.structs.len() as u32);
        match decl_slots(ids, v.union_ids, v.enum_ids, d.fields@) {
            Ok(s) => (RegView { struct_ids: ids, structs: v.structs.push(layout_view(d.name@, d.fields@, s)), ..v }, None),
            Err(bad) => (RegView { struct_ids: ids, ..v }, Some(RegFailure::Field(bad))),
        }
    }
}

/// Registering enum `d`.
pub open spec fn reg_enum(v: RegView, d: EnumDecl) -> (RegView, Option<RegFailure>) {
    if v.enum_ids.contains_key(d.name@) {
        (v, None)
    } else {
        let run = member_run(d.members@, 0);
        let w = RegView {
            enum_ids: v.enum_ids.insert(d.name@, v.enum_count),
            enum_count: wrapping_add_u32(v.enum_count, 1),
            enum_members: v.enum_members + Seq::new(run.0.len(), |i: int| (d.name@, d.members@[i].name@, run.0[i])),
            ..v
        };
        match run.1 {
            Some(m) => (w, Some(RegFailure::Literal(m))),
            None => (w, None),
        }
    }
}

/// Registering union `d`.
pub open spec fn reg_union(v: RegView, d: UnionDecl) -> (RegView, Option<RegFailure>) {
    if v.union_ids.contains_key(d.name@) {
        (v, None)
    } else {
        let ids = v.union_ids.insert(d.name@, v.unions.len() as u32);
        match union_members_view(d.types@) {
            Some(ms) => (RegView { union_ids: ids, unions: v.unions.push((d.name@, ms)), ..v }, None),
            None => (
                RegView { union_ids: ids, ..v },
                Some(RegFailure::Member(first_bad_member(d.types@)->Some_0)),
            ),
        }
    }
}

/// Registering error type `d`.
pub open spec fn reg_error(v: RegView, d: ErrorDecl) -> RegView {
    if v.error_type_ids.contains_key(d.name@) {
        v
    } else {
        let run = intern_run(v.error_tags, v.tag_count, error_keys(d.name@, d.members@));
        RegView {
            error_type_ids: v.error_type_ids.insert(d.name@, v.error_types.len() as u32),
            error_tags: run.0,
            tag_count: run.1,
            error_types: v.error_types.push((d.name@, Seq::new(d.members@.len(), |i: int| (d.members@[i]@, run.2[i])))),
            ..v
        }
    }
}

/// Registering an error type keeps interned tags distinct (and every known
/// key's tag), and each member carries the tag of its key `Type.MEMBER`, as
/// long as the tag count does not run past `u32::MAX`.
pub proof fn lemma_error_tags_distinct(v: RegView, d: ErrorDecl)
    requires
        tags_ok(v.error_tags, v.tag_count),
        v.tag_count + d.members@.len() <= u32::MAX,
    ensures
        tags_ok(reg_error(v, d).error_tags, reg_error(v, d).tag_count),
        forall|k: Seq<char>| #[trigger] v.error_tags.contains_key(k) ==> reg_error(v, d).error_tags.contains_key(k)
            && reg_error(v, d).error_tags[k] == v.error_tags[k],
        !v.error_type_ids.contains_key(d.name@) ==> forall|i: int| 0 <= i < d.members@.len() ==> {
            let key = #[trigger] error_keys(d.name@, d.members@)[i];
            &&& reg_error(v, d).error_tags.contains_key(key)
            &&& reg_error(v, d).error_types.last().1[i] == (d.members@[i]@, reg_error(v, d).error_tags[key])
        },
{
    if !v.error_type_ids.contains_key(d.name@) {
        lemma_intern_keeps_tags(v.error_tags, v.tag_count, error_keys(d.name@, d.members@));
    }
}

/// Nothing is interned in an empty registry.
pub proof fn lemma_empty_tags_ok()
    ensures
        tags_ok(empty_reg().error_tags, empty_reg().tag_count),
{
}

proof fn lemma_members_view(
    base: Seq<(String, String, i64)>,
    now: Seq<(String, String, i64)>,
    name: String,
    ms: Seq<EnumMember>,
    vs: Seq<i64>,
)
    requires
        vs.len() <= ms.len(),
        now == base + Seq::new(vs.len(), |k: int| (name, ms[k].name, vs[k])),
    ensures
        now.map_values(|e: (String, String, i64)| (e.0@, e.1@, e.2)) == base.map_values(
            |e: (String, String, i64)| (e.0@, e.1@, e.2),
        ) + Seq::new(vs.len(), |i: int| (name@, ms[i].name@, vs[i])),
{
    assert(now.map_values(|e: (String, String, i64)| (e.0@, e.1@, e.2)) =~= base.map_values(
        |e: (String, String, i64)| (e.0@, e.1@, e.2),
    ) + Seq::new(vs.len(), |i: int| (name@, ms[i].name@, vs[i])));
}

impl TypeRegistry {
    /// Struct name to id.
    pub closed spec fn struct_ids(&self) -> Map<Seq<char>, u32> {
        self.struct_ids@
    }

    /// Laid-out structs by id.
    pub closed spec fn structs(&self) -> Seq<StructInfo> {
        self.structs@
    }

    /// Enum name to id.
    pub closed spec fn enum_ids(&self) -> Map<Seq<char>, u32> {
        self.enum_ids@
    }

    /// How many enums are registered.
    pub closed spec fn enum_count(&self) -> u32 {
        self.enum_count
    }

    /// Registered `(enum, member, value)` triples, oldest first.
    pub closed spec fn enum_members(&self) -> Seq<(Seq<char>, Seq<char>, i64)> {
        self.enum_members@.map_values(|e: (String, String, i64)| (e.0@, e.1@, e.2))
    }

    /// Union name to id.
    pub closed spec fn union_ids(&self) -> Map<Seq<char>, u32> {
        self.union_ids@
    }

    /// Registered unions by id.
    pub closed spec fn unions(&self) -> Seq<UnionInfo> {
        self.unions@
    }

    /// Error type name to id.
    pub closed spec fn error_type_ids(&self) -> Map<Seq<char>, u32> {
        self.error_type_ids@
    }

    /// Registered error types by id, with their members' tags.
    pub closed spec fn error_types(&self) -> Seq<(Seq<char>, Seq<(Seq<char>, u32)>)> {
        self.error_types@.map_values(
            |e: ErrorTypeInfo| (e.name@, e.members@.map_values(|m: (String, u32)| (m.0@, m.1))),
        )
    }

    /// Interned error keys (`Type.MEMBER`) to tags.
    pub closed spec fn error_tags(&self) -> Map<Seq<char>, u32> {
        self.error_tags@
    }

    /// How many keys are interned.
    pub closed spec fn tag_count(&self) -> u32 {
        self.tag_count
    }

    /// Everything the registry knows.
    pub closed spec fn view(&self) -> RegView {
        RegView {
            struct_ids: self.struct_ids(),
            structs: self.structs@.map_values(|i: StructInfo| struct_view(i)),
            enum_ids: self.enum_ids(),
            enum_count: self.enum_count(),
            enum_members: self.enum_members(),
            union_ids: self.union_ids(),
            unions: self.unions@.map_values(|u: UnionInfo| (u.name@, u.members@.map_values(|m: MemberTy| member_view(m)))),
            error_type_ids: self.error_type_ids(),
            error_types: self.error_types(),
            error_tags: self.error_tags(),
            tag_count: self.tag_count(),
        }
    }

    /// A registry that knows no declaration.
    pub fn new() -> (r: Self)
        ensures
            r.struct_ids() == Map::<Seq<char>, u32>::empty(),
            r.structs() == Seq::<StructInfo>::empty(),
            r.enum_ids() == Map::<Seq<char>, u32>::empty(),
            r.enum_count() == 0,
            r.enum_members() == Seq::<(Seq<char>, Seq<char>, i64)>::empty(),
            r.union_ids() == Map::<Seq<char>, u32>::empty(),
            r.unions() == Seq::<UnionInfo>::empty(),
            r.error_type_ids() == Map::<Seq<char>, u32>::empty(),
            r.error_types() == Seq::<(Seq<char>, Seq<(Seq<char>, u32)>)>::empty(),
            r.error_tags() == Map::<Seq<char>, u32>::empty(),
            r.tag_count() == 0,
            r.view() == empty_reg(),
    {
        let r = TypeRegistry {
            struct_ids: NameMap::new(),
            structs: Vec::new(),
            enum_ids: NameMap::new(),
            enum_count: 0,
            enum_members: Vec::new(),
            union_ids: NameMap::new(),
            unions: Vec::new(),
            error_type_ids: NameMap::new(),
            error_types: Vec::new(),
            error_tags: NameMap::new(),
            tag_count: 0,
        };
        assert(r.view().structs =~= Seq::<StructView>::empty());
        assert(r.view().enum_members =~= Seq::<(Seq<char>, Seq<char>, i64)>::empty());
        assert(r.view().unions =~= Seq::<(Seq<char>, Seq<MemberView>)>::empty());
        assert(r.view().error_types =~= Seq::<(Seq<char>, Seq<(Seq<char>, u32)>)>::empty());
        r
    }

    /// `(kind, size, align)` of a struct field of type `ty`; `E393` for a
    /// type the interpreter cannot store in a field.
    pub fn field_layout(&self, ty: &Type) -> (r: Result<(u64, u32, u32), InterpretError>)
        ensures
            match field_slot(self.struct_ids(), self.union_ids(), self.enum_ids(), *ty) {
                Ok(s) => r == Ok::<(u64, u32, u32), InterpretError>(s),
                Err(bad) => r matches Err(e) && e.code@ == "E393"@ && e.span == span_at(0, 0, 1, 1)
                    && e.message@ == field_type_message(bad),
            },
        decreases ty,
    {
        match &ty.kind {
            TypeKind::Primitive(p) => match primitive_to_kind(*p) {
                Some(kind) => {
                    let (size, align) = if kind == 0 || kind == 1 || kind == 6 {
                        (1u32, 1u32)
                    } else if kind == 2 || kind == 7 || kind == 12 {
                        (2, 2)
                    } else if kind == 3 || kind == 8 || kind == 11 || kind == 13 {
                        (4, 4)
                    } else {
                        (8, 8)
                    };
                    Ok((kind, size, align))
                },
                None => Err(self.bad_field(ty)),
            },
            TypeKind::Named(n) => {
                if crate::text::str_eq(n.as_str(), "string") {
                    Ok((KIND_STRING, 8, 8))
                } else if let Some(id) = self.struct_ids.get(n.as_str()) {
                    Ok((KIND_STRUCT | ((*id as u64) << 8u64), 8, 8))
                } else if let Some(id) = self.union_ids.get(n.as_str()) {
                    Ok((KIND_UNION | ((*id as u64) << 8u64), 8, 8))
                } else if self.enum_ids.contains_key(n.as_str()) {
                    Ok((4, 8, 8))
                } else {
                    Err(self.bad_field(ty))
                }
            },
            TypeKind::Reference { inner } => self.field_layout(inner),
            TypeKind::List { element } => {
                let (ek, _, _) = self.field_layout(element)?;
                Ok((KIND_LIST | (ek << 8u64), 8, 8))
            },
            TypeKind::Hashmap { key, value } => {
                let (kk, _, _) = self.field_layout(key)?;
                let (vk, _, _) = self.field_layout(value)?;
                Ok((KIND_MAP | (kk << 8u64) | (vk << 40u64), 8, 8))
            },
            _ => Err(self.bad_field(ty)),
        }
    }

    /// Register struct `d` unless a struct of its name is known: its id is
    /// the number of laid-out structs, and fields are laid out in order,
    /// each at the next offset aligned for it. The id is taken before the
    /// fields are laid out, so a field may name the struct itself; when a
    /// field has no layout the error is returned and the struct keeps its
    /// id but is not laid out.
    #[verifier::spinoff_prover]
    pub fn register_struct(&mut self, d: &StructDecl) -> (r: Result<(), InterpretError>)
        requires
            d.fields@.len() <= 0x1000_0000,
        ensures
            final(self).view() == reg_struct(old(self).view(), *d).0,
            outcome(reg_struct(old(self).view(), *d).1, r),
            final(self).enum_ids() == old(self).enum_ids(),
            final(self).union_ids() == old(self).union_ids(),
            old(self).struct_ids().contains_key(d.name@) ==> r is Ok && final(self).struct_ids()
                == old(self).struct_ids() && final(self).structs() == old(self).structs(),
            !old(self).struct_ids().contains_key(d.name@) ==> {
                let ids = old(self).struct_ids().insert(d.name@, old(self).structs().len() as u32);
                let slots = decl_slots(ids, old(self).union_ids(), old(self).enum_ids(), d.fields@);
                &&& final(self).struct_ids() == ids
                &&& (r is Ok <==> slots is Ok)
                &&& (slots matches Ok(s) ==> final(self).structs().len() == old(self).structs().len() + 1
                    && final(self).structs().drop_last() == old(self).structs()
                    && laid_out(final(self).structs().last(), d.name@, d.fields@, s))
                &&& (slots matches Err(bad) ==> final(self).structs() == old(self).structs()
                    && (r matches Err(e) && e.code@ == "E393"@ && e.span == span_at(0, 0, 1, 1)
                    && e.message@ == field_type_message(bad)))
            },
    {
        if self.struct_ids.contains_key(d.name.as_str()) {
            return Ok(());
        }
        assert(old(self).view().structs.len() == old(self).structs().len());
        let id = self.structs.len() as u32;
        self.struct_ids.insert(d.name.clone(), id);
        assert(self.view() == RegView { struct_ids: self.struct_ids(), ..old(self).view() });
        let ghost fs = d.fields@;
        let mut fields: Vec<FieldInfo> = Vec::new();
        let mut size: u32 = 0;
        let mut align: u32 = 1;
        let ghost mut slots: Seq<(u64, u32, u32)> = Seq::empty();
        let mut i: usize = 0;
        while i < d.fields.len()
            invariant
                0 <= i <= fs.len(),
                fs == d.fields@,
                fs.len() <= 0x1000_0000,
                self.enum_ids() == old(self).enum_ids(),
                self.union_ids() == old(self).union_ids(),
                self.struct_ids() == old(self).struct_ids().insert(d.name@, old(self).structs().len() as u32),
                self.structs() == old(self).structs(),
                self.view() == (RegView { struct_ids: self.struct_ids(), ..old(self).view() }),
                !old(self).struct_ids().contains_key(d.name@),
                decl_slots(self.struct_ids(), self.union_ids(), self.enum_ids(), fs.take(i as int))
                    == Ok::<Seq<(u64, u32, u32)>, Type>(slots),
                slots_ok(slots),
                slots.len() == i,
                size == slots_end(slots),
                align == slots_align(slots),
                fields@.len() == i,
                forall|k: int|
                    0 <= k < i ==> {
                        &&& (#[trigger] fields@[k]).name@ == fs[k].name@
                        &&& fields@[k].kind == slots[k].0
                        &&& fields@[k].offset == slot_offset(slots, k)
                        &&& fields@[k].size == slots[k].1
                    },
            decreases fs.len() - i,
        {
            proof {
                assert(fs.take(i + 1).drop_last() =~= fs.take(i as int));
                assert(fs.take(i + 1).last() == fs[i as int]);
                lemma_field_slot_sizes(self.struct_ids(), self.union_ids(), self.enum_ids(), fs[i as int].ty);
            }
            let (kind, fsize, falign) = match self.field_layout(&d.fields[i].ty) {
                Ok(x) => x,
                Err(e) => {
                    proof {
                        lemma_decl_slots_err(self.struct_ids(), self.union_ids(), self.enum_ids(), fs, i + 1);
                        assert(old(self).view().structs.len() == old(self).structs().len());
                    }
                    return Err(e);
                },
            };
            proof {
                lemma_slots_bounds(slots);
                lemma_mask_round(size, falign);
            }
            if falign > align {
                align = falign;
            }
            size = (size + (falign - 1)) & !(falign - 1);
            let ghost prev = fields@;
            let ghost old_slots = slots;
            proof {
                slots = slots.push((kind, fsize, falign));
                assert(slots.drop_last() =~= old_slots);
                assert(slots.take(i as int) =~= old_slots);
                assert forall|k: int| 0 <= k < slots.len() implies {
                    &&& (#[trigger] slots[k]).1 == slots[k].2
                    &&& (slots[k].2 == 1 || slots[k].2 == 2 || slots[k].2 == 4 || slots[k].2 == 8)
                } by {
                    if k < i {
                        assert(slots[k] == old_slots[k]);
                    }
                }
                lemma_align_up(slots_end(old_slots), falign as int);
                lemma_align_up_below(slots_end(old_slots), (8 * old_slots.len()) as int, falign as int);
            }
            fields.push(FieldInfo { name: d.fields[i].name.clone(), kind, offset: size as i32, size: fsize });
            size = size + fsize;
            proof {
                assert forall|k: int| 0 <= k < i + 1 implies {
                    &&& (#[trigger] fields@[k]).name@ == fs[k].name@
                    &&& fields@[k].kind == slots[k].0
                    &&& fields@[k].offset == slot_offset(slots, k)
                    &&& fields@[k].size == slots[k].1
                } by {
                    if k < i {
                        assert(fields@[k] == prev[k]);
                        assert(slots.take(k) =~= old_slots.take(k));
                    }
                }
            }
            i += 1;
        }
        proof {
            assert(fs.take(fs.len() as int) =~= fs);
            lemma_slots_bounds(slots);
            lemma_mask_round(size, align);
        }
        size = (size + (align - 1)) & !(align - 1);
        if size == 0 {
            size = 1;
        }
        let ghost fv = fields@;
        self.structs.push(StructInfo { name: d.name.clone(), fields, size });
        proof {
            let info = self.structs@.last();
            assert(info.fields@ == fv);
            assert(info.fields@.map_values(|f: FieldInfo| (f.name@, f.kind, f.offset, f.size))
                =~= layout_view(d.name@, fs, slots).1);
            assert(struct_view(info) == layout_view(d.name@, fs, slots));
            assert(self.structs@.drop_last() == old(self).structs@);
            assert(self.structs@.map_values(|i: StructInfo| struct_view(i)) =~= old(self).structs@.map_values(
                |i: StructInfo| struct_view(i),
            ).push(layout_view(d.name@, fs, slots)));
        }
        Ok(())
    }

    /// Register enum `d` unless an enum of its name is known: its id is the
    /// number of enums registered, and each member gets its value in order.
    /// A literal that does not decode is `E363`; the members before it stay
    /// registered.
    pub fn register_enum(&mut self, d: &EnumDecl) -> (r: Result<(), InterpretError>)
        ensures
            final(self).view() == reg_enum(old(self).view(), *d).0,
            outcome(reg_enum(old(self).view(), *d).1, r),
            final(self).struct_ids() == old(self).struct_ids(),
            final(self).structs() == old(self).structs(),
            final(self).union_ids() == old(self).union_ids(),
            old(self).enum_ids().contains_key(d.name@) ==> r is Ok && final(self).enum_ids()
                == old(self).enum_ids() && final(self).enum_count() == old(self).enum_count()
                && final(self).enum_members() == old(self).enum_members(),
            !old(self).enum_ids().contains_key(d.name@) ==> {
                let run = member_run(d.members@, 0);
                &&& final(self).enum_ids() == old(self).enum_ids().insert(d.name@, old(self).enum_count())
                &&& final(self).enum_count() == (if old(self).enum_count() == u32::MAX { 0 } else { old(self).enum_count() + 1 })
                &&& final(self).enum_members() == old(self).enum_members() + Seq::new(
                    run.0.len(),
                    |i: int| (d.name@, d.members@[i].name@, run.0[i]),
                )
                &&& (r is Ok <==> run.1 is None)
                &&& (run.1 matches Some(m) ==> (r matches Err(e) && e.message@ == m && e.code@ == "E363"@
                    && e.span == span_at(0, 0, 1, 1)))
            },
    {
        if self.enum_ids.contains_key(d.name.as_str()) {
            return Ok(());
        }
        self.enum_ids.insert(d.name.clone(), self.enum_count);
        self.enum_count = self.enum_count.wrapping_add(1);
        assert(self.view() == (RegView {
            enum_ids: self.enum_ids(),
            enum_count: self.enum_count(),
            enum_members: self.enum_members(),
            ..old(self).view()
        }));
        let ghost ms = d.members@;
        let ghost base = self.enum_members@;
        let ghost mut vs: Seq<i64> = Seq::empty();
        let mut next: i64 = 0;
        let mut i: usize = 0;
        assert(ms.skip(0) =~= ms);
        assert(self.enum_members@ =~= base + Seq::new(0, |k: int| (d.name, d.members@[k].name, vs[k])));
        while i < d.members.len()
            invariant
                0 <= i <= ms.len(),
                ms == d.members@,
                self.struct_ids() == old(self).struct_ids(),
                self.structs() == old(self).structs(),
                self.union_ids() == old(self).union_ids(),
                self.enum_ids() == old(self).enum_ids().insert(d.name@, old(self).enum_count()),
                self.enum_count() == (if old(self).enum_count() == u32::MAX { 0 } else { old(self).enum_count() + 1 }),
                base == old(self).enum_members@,
                !old(self).enum_ids().contains_key(d.name@),
                self.view() == (RegView {
                    enum_ids: self.enum_ids(),
                    enum_count: self.enum_count(),
                    enum_members: self.enum_members(),
                    ..old(self).view()
                }),
                vs.len() == i,
                member_run(ms, 0).0 == vs + member_run(ms.skip(i as int), next).0,
                member_run(ms, 0).1 == member_run(ms.skip(i as int), next).1,
                self.enum_members@ == base + Seq::new(i as nat, |k: int| (d.name, d.members@[k].name, vs[k])),
            decreases ms.len() - i,
        {
            assert(ms.skip(i as int)[0] == ms[i as int]);
            assert(ms.skip(i as int).drop_first() =~= ms.skip(i + 1));
            let v: i64 = match &d.members[i].value {
                Some(raw) => match decode_int_literal(raw.as_str()) {
                    Ok(x) => x as i64,
                    Err(msg) => {
                        proof {
                            lemma_members_view(base, self.enum_members@, d.name, ms, vs);
                            assert(vs + Seq::<i64>::empty() =~= vs);
                        }
                        return Err(InterpretError::new(msg, Span::default(), owned("E363")));
                    },
                },
                None => next,
            };
            let ghost old_next = next;
            next = v.wrapping_add(1);
            let ghost before = self.enum_members@;
            self.enum_members.push((d.name.clone(), d.members[i].name.clone(), v));
            proof {
                let rest = member_run(ms.skip(i + 1), next);
                assert(member_run(ms.skip(i as int), old_next).0 =~= seq![v] + rest.0);
                assert(member_run(ms.skip(i as int), old_next).1 == rest.1);
                let vs2 = vs.push(v);
                assert(vs + (seq![v] + rest.0) =~= vs2 + rest.0);
                assert(self.enum_members@ =~= base + Seq::new((i + 1) as nat, |k: int| (d.name, d.members@[k].name, vs2[k])));
                vs = vs2;
            }
            i += 1;
        }
        proof {
            assert(ms.skip(ms.len() as int) =~= Seq::<EnumMember>::empty());
            assert(vs + Seq::<i64>::empty() =~= vs);
            lemma_members_view(base, self.enum_members@, d.name, ms, vs);
        }
        Ok(())
    }

    /// The value of `enum_name.member`, as last registered.
    pub fn enum_value(&self, enum_name: &str, member: &str) -> (r: Option<i64>)
        ensures
            r == enum_value_of(self.enum_members(), enum_name@, member@),
    {
        let ghost all = self.enum_members();
        let mut i: usize = self.enum_members.len();
        assert(all.take(i as int) =~= all);
        while i > 0
            invariant
                i <= self.enum_members@.len(),
                all == self.enum_members(),
                enum_value_of(all, enum_name@, member@) == enum_value_of(all.take(i as int), enum_name@, member@),
            decreases i,
        {
            let ghost t = all.take(i as int);
            assert(t.drop_last() =~= all.take(i - 1));
            assert(t.last() == all[i - 1]);
            i -= 1;
            let e = &self.enum_members[i];
            if crate::text::str_eq(e.0.as_str(), enum_name) && crate::text::str_eq(e.1.as_str(), member) {
                return Some(e.2);
            }
        }
        None
    }

    /// Register union `d` unless a union of its name is known: its id is the
    /// number of registered unions, and its member types are read in order.
    /// A member type the interpreter cannot store is `E393`; the union then
    /// keeps its id but is not registered.
    pub fn register_union(&mut self, d: &UnionDecl) -> (r: Result<(), InterpretError>)
        ensures
            final(self).view() == reg_union(old(self).view(), *d).0,
            outcome(reg_union(old(self).view(), *d).1, r),
            final(self).struct_ids() == old(self).struct_ids(),
            final(self).structs() == old(self).structs(),
            final(self).enum_ids() == old(self).enum_ids(),
            final(self).enum_count() == old(self).enum_count(),
            final(self).enum_members() == old(self).enum_members(),
            old(self).union_ids().contains_key(d.name@) ==> r is Ok && final(self).union_ids()
                == old(self).union_ids() && final(self).unions() == old(self).unions(),
            !old(self).union_ids().contains_key(d.name@) ==> {
                &&& final(self).union_ids() == old(self).union_ids().insert(d.name@, old(self).unions().len() as u32)
                &&& (r is Ok <==> forall|i: int| 0 <= i < d.types@.len() ==> #[trigger] union_member_spec(d.types@[i]) is Ok)
                &&& (r is Ok ==> final(self).unions().len() == old(self).unions().len() + 1
                    && final(self).unions().drop_last() == old(self).unions()
                    && final(self).unions().last().name@ == d.name@
                    && final(self).unions().last().members@.len() == d.types@.len()
                    && forall|i: int| 0 <= i < d.types@.len() ==> stores_member(d.types@[i],
                        #[trigger] final(self).unions().last().members@[i]))
                &&& (r is Err ==> final(self).unions() == old(self).unions()
                    && (r matches Err(e) && e.code@ == "E393"@ && e.span == span_at(0, 0, 1, 1)))
            },
    {
        if self.union_ids.contains_key(d.name.as_str()) {
            return Ok(());
        }
        assert(old(self).view().unions.len() == old(self).unions().len());
        let id = self.unions.len() as u32;
        self.union_ids.insert(d.name.clone(), id);
        assert(self.view() == (RegView { union_ids: self.union_ids(), ..old(self).view() }));
        let mut members: Vec<MemberTy> = Vec::new();
        let mut i: usize = 0;
        while i < d.types.len()
            invariant
                0 <= i <= d.types@.len(),
                members@.len() == i,
                forall|k: int| 0 <= k < i ==> stores_member(d.types@[k], #[trigger] members@[k]),
                self.struct_ids() == old(self).struct_ids(),
                self.structs() == old(self).structs(),
                self.enum_ids() == old(self).enum_ids(),
                self.enum_count() == old(self).enum_count(),
                self.enum_members() == old(self).enum_members(),
                self.unions() == old(self).unions(),
                self.union_ids() == old(self).union_ids().insert(d.name@, old(self).unions().len() as u32),
                !old(self).union_ids().contains_key(d.name@),
                self.view() == (RegView { union_ids: self.union_ids(), ..old(self).view() }),
            decreases d.types@.len() - i,
        {
            let mt = match union_member_ty(&d.types[i]) {
                Ok(x) => x,
                Err(e) => {
                    assert(union_member_spec(d.types@[i as int]) is Err);
                    assert(union_members_view(d.types@) is None);
                    proof {
                        assert forall|k: int| 0 <= k < i implies #[trigger] union_member_spec(d.types@[k]) is Ok by {
                            assert(stores_member(d.types@[k], members@[k]));
                        }
                        lemma_first_bad_member(d.types@, i as int);
                    }
                    return Err(e);
                },
            };
            assert(stores_member(d.types@[i as int], mt));
            let ghost prev = members@;
            members.push(mt);
            proof {
                assert forall|k: int| 0 <= k < i + 1 implies stores_member(d.types@[k], #[trigger] members@[k]) by {
                    if k < i {
                        assert(members@[k] == prev[k]);
                    }
                }
            }
            i += 1;
        }
        let ghost ms = members@;
        self.unions.push(UnionInfo { name: d.name.clone(), members });
        proof {
            assert(self.unions@.last().members@ == ms);
            assert(self.unions@.drop_last() =~= old(self).unions@);
            assert forall|k: int| 0 <= k < d.types@.len() implies #[trigger] union_member_spec(d.types@[k]) is Ok by {
                assert(stores_member(d.types@[k], ms[k]));
            }
            let mv = union_members_view(d.types@)->Some_0;
            assert(ms.map_values(|m: MemberTy| member_view(m)) =~= mv) by {
                assert forall|k: int| 0 <= k < ms.len() implies member_view(#[trigger] ms[k]) == mv[k] by {
                    assert(stores_member(d.types@[k], ms[k]));
                }
            }
            assert(self.unions@.map_values(|u: UnionInfo| (u.name@, u.members@.map_values(|m: MemberTy| member_view(m))))
                =~= old(self).unions@.map_values(|u: UnionInfo| (u.name@, u.members@.map_values(|m: MemberTy| member_view(m)))).push((d.name@, mv)));
        }
        Ok(())
    }

    /// The tag of `key`, interning it as the next tag when it is new.
    pub fn intern_error_tag(&mut self, key: &str) -> (r: u32)
        ensures
            old(self).error_tags().contains_key(key@) ==> r == old(self).error_tags()[key@]
                && final(self).error_tags() == old(self).error_tags() && final(self).tag_count()
                == old(self).tag_count(),
            !old(self).error_tags().contains_key(key@) ==> r == wrapping_add_u32(old(self).tag_count(), 1)
                && final(self).error_tags() == old(self).error_tags().insert(key@, r)
                && final(self).tag_count() == r,
            final(self).struct_ids() == old(self).struct_ids(),
            final(self).structs() == old(self).structs(),
            final(self).enum_ids() == old(self).enum_ids(),
            final(self).enum_count() == old(self).enum_count(),
            final(self).enum_members() == old(self).enum_members(),
            final(self).union_ids() == old(self).union_ids(),
            final(self).unions() == old(self).unions(),
            final(self).error_type_ids() == old(self).error_type_ids(),
            final(self).error_types() == old(self).error_types(),
    {
        if let Some(t) = self.error_tags.get(key) {
            return *t;
        }
        let next = self.tag_count.wrapping_add(1);
        self.error_tags.insert(owned(key), next);
        self.tag_count = next;
        next
    }

    /// Register error type `d` unless one of its name is known: its id is
    /// the number of registered error types, and each member `M` gets the
    /// tag of the key `Name.M`, interned in order.
    pub fn register_error(&mut self, d: &ErrorDecl)
        ensures
            final(self).view() == reg_error(old(self).view(), *d),
            final(self).struct_ids() == old(self).struct_ids(),
            final(self).structs() == old(self).structs(),
            final(self).enum_ids() == old(self).enum_ids(),
            final(self).enum_count() == old(self).enum_count(),
            final(self).enum_members() == old(self).enum_members(),
            final(self).union_ids() == old(self).union_ids(),
            final(self).unions() == old(self).unions(),
            old(self).error_type_ids().contains_key(d.name@) ==> final(self).error_type_ids()
                == old(self).error_type_ids() && final(self).error_types() == old(self).error_types()
                && final(self).error_tags() == old(self).error_tags() && final(self).tag_count()
                == old(self).tag_count(),
            !old(self).error_type_ids().contains_key(d.name@) ==> {
                let run = intern_run(old(self).error_tags(), old(self).tag_count(), error_keys(d.name@, d.members@));
                &&& final(self).error_type_ids() == old(self).error_type_ids().insert(
                    d.name@,
                    old(self).error_types().len() as u32,
                )
                &&& final(self).error_tags() == run.0
                &&& final(self).tag_count() == run.1
                &&& final(self).error_types() == old(self).error_types().push(
                    (d.name@, Seq::new(d.members@.len(), |i: int| (d.members@[i]@, run.2[i]))),
                )
            },
    {
        if self.error_type_ids.contains_key(d.name.as_str()) {
            return;
        }
        let id = self.error_types.len() as u32;
        self.error_type_ids.insert(d.name.clone(), id);
        assert(self.view() == (RegView { error_type_ids: self.error_type_ids(), ..old(self).view() }));
        let ghost keys = error_keys(d.name@, d.members@);
        let ghost tags0 = self.error_tags();
        let ghost count0 = self.tag_count();
        let ghost mut got: Seq<u32> = Seq::empty();
        let mut members: Vec<(String, u32)> = Vec::new();
        let mut i: usize = 0;
        assert(keys.skip(0) =~= keys);
        while i < d.members.len()
            invariant
                0 <= i <= d.members@.len(),
                keys == error_keys(d.name@, d.members@),
                got.len() == i,
                members@.len() == i,
                forall|k: int| 0 <= k < i ==> (#[trigger] members@[k]).0@ == d.members@[k]@ && members@[k].1 == got[k],
                ({
                    let all = intern_run(tags0, count0, keys);
                    let rest = intern_run(self.error_tags(), self.tag_count(), keys.skip(i as int));
                    &&& all.0 == rest.0
                    &&& all.1 == rest.1
                    &&& all.2 == got + rest.2
                }),
                self.struct_ids() == old(self).struct_ids(),
                self.structs() == old(self).structs(),
                self.enum_ids() == old(self).enum_ids(),
                self.enum_count() == old(self).enum_count(),
                self.enum_members() == old(self).enum_members(),
                self.union_ids() == old(self).union_ids(),
                self.unions() == old(self).unions(),
                self.error_types() == old(self).error_types(),
                self.error_type_ids() == old(self).error_type_ids().insert(d.name@, old(self).error_types().len() as u32),
                self.view() == (RegView {
                    error_type_ids: self.error_type_ids(),
                    error_tags: self.error_tags(),
                    tag_count: self.tag_count(),
                    ..old(self).view()
                }),
            decreases d.members@.len() - i,
        {
            let mut key = d.name.clone();
            push_str(&mut key, ".");
            push_str(&mut key, d.members[i].as_str());
            assert(key@ == keys[i as int]);
            let ghost before_tags = self.error_tags();
            let ghost before_count = self.tag_count();
            let tag = self.intern_error_tag(key.as_str());
            proof {
                let sk = keys.skip(i as int);
                assert(sk[0] == key@);
                assert(sk.drop_first() =~= keys.skip(i + 1));
                let all = intern_run(tags0, count0, keys);
                let rest = intern_run(self.error_tags(), self.tag_count(), keys.skip(i + 1));
                assert(all.2 =~= got.push(tag) + rest.2);
                got = got.push(tag);
            }
            let ghost prev = members@;
            members.push((d.members[i].clone(), tag));
            proof {
                assert forall|k: int| 0 <= k < i + 1 implies (#[trigger] members@[k]).0@ == d.members@[k]@ && members@[k].1 == got[k] by {
                    if k < i {
                        assert(members@[k] == prev[k]);
                    }
                }
            }
            i += 1;
        }
        proof {
            assert(keys.skip(d.members@.len() as int) =~= Seq::<Seq<char>>::empty());
            assert(got + Seq::<u32>::empty() =~= got);
        }
        let ghost ms = members@;
        self.error_types.push(ErrorTypeInfo { name: d.name.clone(), members });
        proof {
            let tail = (d.name@, Seq::new(d.members@.len(), |k: int| (d.members@[k]@, got[k])));
            assert(ms.map_values(|m: (String, u32)| (m.0@, m.1)) =~= tail.1);
            assert(self.error_types() =~= old(self).error_types().push(tail));
        }
    }

    /// The runtime kind code of type `ty`.
    pub fn type_kind_code(&self, ty: &Type) -> (r: Option<u64>)
        ensures
            r == type_kind_spec(self.struct_ids(), self.union_ids(), self.enum_ids(), self.error_type_ids(), *ty),
        decreases ty,
    {
        match &ty.kind {
            TypeKind::Primitive(p) => primitive_to_kind(*p),
            TypeKind::Array { element, size } => {
                let e = self.type_kind_code(element)?;
                let count: u64 = match size {
                    Some(n) => *n,
                    None => 0,
                };
                Some(0x60u64 | (e << 8u64) | (count << 40u64))
            },
            TypeKind::List { element } => {
                let e = self.type_kind_code(element)?;
                Some(KIND_LIST | (e << 8u64))
            },
            TypeKind::Hashmap { key, value } => {
                let k = self.type_kind_code(key)?;
                let v = self.type_kind_code(value)?;
                Some(KIND_MAP | (k << 8u64) | (v << 40u64))
            },
            TypeKind::Reference { inner } => self.type_kind_code(inner),
            TypeKind::Named(name) => {
                if let Some(k) = primitive_kind_code(name.as_str()) {
                    return Some(k);
                }
                if let Some(id) = self.struct_ids.get(name.as_str()) {
                    return Some(KIND_STRUCT | ((*id as u64) << 8u64));
                }
                if let Some(id) = self.union_ids.get(name.as_str()) {
                    return Some(KIND_UNION | ((*id as u64) << 8u64));
                }
                if self.enum_ids.contains_key(name.as_str()) {
                    return Some(4);
                }
                if self.error_type_ids.contains_key(name.as_str()) {
                    return Some(KIND_ERROR);
                }
                None
            },
            TypeKind::Union(_) => Some(KIND_ERROR),
            TypeKind::Pointer { .. } => None,
        }
    }

    /// The tag of the first member named `member` of error type `id`.
    fn tag_of_member(&self, id: usize, member: &str) -> (r: Option<u32>)
        requires
            id < self.error_types().len(),
        ensures
            r == tag_in(self.error_types()[id as int].1, member@),
    {
        let ms = &self.error_types[id].members;
        let ghost view = self.error_types()[id as int].1;
        assert(view == ms@.map_values(|m: (String, u32)| (m.0@, m.1)));
        let mut i: usize = 0;
        assert(view.skip(0) =~= view);
        while i < ms.len()
            invariant
                0 <= i <= ms@.len(),
                view == ms@.map_values(|m: (String, u32)| (m.0@, m.1)),
                id < self.error_types().len(),
                view == self.error_types()[id as int].1,
                tag_in(view, member@) == tag_in(view.skip(i as int), member@),
            decreases ms@.len() - i,
        {
            assert(view.skip(i as int)[0] == view[i as int]);
            assert(view.skip(i as int).drop_first() =~= view.skip(i + 1));
            assert(view[i as int] == (ms@[i as int].0@, ms@[i as int].1));
            if str_eq(ms[i].0.as_str(), member) {
                proof {
                    let sk = view.skip(i as int);
                    assert(sk.len() > 0);
                    assert(sk[0].0 == member@);
                    assert(tag_in(sk, member@) == Some(sk[0].1));
                    assert(sk[0].1 == ms@[i as int].1);
                    assert(tag_in(view, member@) == Some(ms@[i as int].1));
                }
                return Some(ms[i].1);
            }
            i += 1;
        }
        None
    }

    /// The tag of error member `member` in the first error type that has it.
    fn first_tag_of_member(&self, member: &str) -> (r: Option<u32>)
        ensures
            r == first_type_tag(self.error_types(), member@),
    {
        let ghost all = self.error_types();
        let mut i: usize = 0;
        assert(all.skip(0) =~= all);
        while i < self.error_types.len()
            invariant
                0 <= i <= all.len(),
                all == self.error_types(),
                first_type_tag(all, member@) == first_type_tag(all.skip(i as int), member@),
            decreases all.len() - i,
        {
            assert(all.skip(i as int)[0] == all[i as int]);
            assert(all.skip(i as int).drop_first() =~= all.skip(i + 1));
            if let Some(t) = self.tag_of_member(i, member) {
                return Some(t);
            }
            i += 1;
        }
        None
    }

    /// The tag that error-member type `ty` (`error.M` or `Type.M`) names.
    pub fn error_member_tag(&self, ty: &Type) -> (r: Option<u32>)
        ensures
            r == error_member_tag_spec(self.error_tags(), self.error_type_ids(), self.error_types(), *ty),
    {
        let path = match &ty.kind {
            TypeKind::Named(p) => p,
            _ => {
                return None;
            },
        };
        let cs = chars_of(path.as_str());
        let ghost p = path@;
        let prefix = chars_of("error.");
        proof {
            reveal_strlit("error.");
        }
        let mut is_error_path = cs.len() >= 6;
        let mut k: usize = 0;
        while k < 6 && is_error_path
            invariant
                0 <= k <= 6,
                prefix@ == "error."@,
                prefix@.len() == 6,
                cs@ == p,
                is_error_path ==> p.len() >= 6 && forall|m: int| 0 <= m < k ==> p[m] == prefix@[m],
                !is_error_path ==> !(p.len() >= 6 && p.take(6) == "error."@),
            decreases 6 - k,
        {
            if cs[k] != prefix[k] {
                is_error_path = false;
                proof {
                    if p.len() >= 6 && p.take(6) == "error."@ {
                        assert(p.take(6)[k as int] == p[k as int]);
                    }
                }
            }
            k += 1;
        }
        if is_error_path {
            assert(p.take(6) =~= "error."@);
            let member = string_of_chars(&slice_chars(&cs, 6, cs.len()));
            assert(member@ =~= p.skip(6));
            if let Some(t) = self.error_tags.get(member.as_str()) {
                return Some(*t);
            }
            return self.first_tag_of_member(member.as_str());
        }
        let mut j: usize = cs.len();
        assert(p.take(p.len() as int) =~= p);
        while j > 0 && cs[j - 1] != '.'
            invariant
                j <= p.len(),
                cs@ == p,
                last_dot(p) == last_dot(p.take(j as int)),
            decreases j,
        {
            let ghost t = p.take(j as int);
            assert(t.drop_last() =~= p.take(j - 1));
            j -= 1;
        }
        if j == 0 {
            assert(p.take(0) =~= Seq::<char>::empty());
            return None;
        }
        let dot = j - 1;
        assert(p.take(j as int).last() == '.');
        assert(last_dot(p) == Some(dot as int));
        let owner = string_of_chars(&slice_chars(&cs, 0, dot));
        let member = string_of_chars(&slice_chars(&cs, dot + 1, cs.len()));
        assert(owner@ =~= p.take(dot as int));
        assert(member@ =~= p.skip(dot + 1));
        match self.error_type_ids.get(owner.as_str()) {
            Some(id) => {
                if (*id as usize) < self.error_types.len() {
                    self.tag_of_member(*id as usize, member.as_str())
                } else {
                    None
                }
            },
            None => None,
        }
    }

    /// How many structs are laid out.
    pub fn struct_count(&self) -> (r: usize)
        ensures
            r == self.view().structs.len(),
    {
        self.structs.len()
    }

    /// The name of laid-out struct `id`.
    pub fn struct_name(&self, id: usize) -> (r: &str)
        requires
            id < self.view().structs.len(),
        ensures
            r@ == self.view().structs[id as int].0,
    {
        self.structs[id].name.as_str()
    }

    /// The laid-out struct named `name`, if one is.
    pub fn struct_named(&self, name: &str) -> (r: Option<&StructInfo>)
        ensures
            match r {
                Some(info) => self.view().struct_ids.contains_key(name@)
                    && (self.view().struct_ids[name@] as int) < self.view().structs.len()
                    && struct_view(*info) == self.view().structs[self.view().struct_ids[name@] as int],
                None => !self.view().struct_ids.contains_key(name@)
                    || self.view().struct_ids[name@] as int >= self.view().structs.len(),
            },
    {
        match self.struct_ids.get(name) {
            Some(id) => {
                if (*id as usize) < self.structs.len() {
                    Some(&self.structs[*id as usize])
                } else {
                    None
                }
            },
            None => None,
        }
    }

    /// The union named `name`, if one is registered.
    pub fn union_named(&self, name: &str) -> (r: Option<&UnionInfo>)
        ensures
            match r {
                Some(info) => self.view().union_ids.contains_key(name@)
                    && (self.view().union_ids[name@] as int) < self.view().unions.len()
                    && (info.name@, info.members@.map_values(|m: MemberTy| member_view(m)))
                        == self.view().unions[self.view().union_ids[name@] as int],
                None => !self.view().union_ids.contains_key(name@)
                    || self.view().union_ids[name@] as int >= self.view().unions.len(),
            },
    {
        match self.union_ids.get(name) {
            Some(id) => {
                if (*id as usize) < self.unions.len() {
                    Some(&self.unions[*id as usize])
                } else {
                    None
                }
            },
            None => None,
        }
    }

    /// The tag of an interned key `Type.MEMBER`.
    pub fn error_tag(&self, key: &str) -> (r: Option<u32>)
        ensures
            match r {
                Some(t) => self.view().error_tags.contains_key(key@) && t == self.view().error_tags[key@],
                None => !self.view().error_tags.contains_key(key@),
            },
    {
        match self.error_tags.get(key) {
            Some(t) => Some(*t),
            None => None,
        }
    }

    /// The `E393` error about a field of type `ty`.
    fn bad_field(&self, ty: &Type) -> (r: InterpretError)
        ensures
            r.code@ == "E393"@,
            r.span == span_at(0, 0, 1, 1),
            r.message@ == field_type_message(*ty),
    {
        let mut what = owned("field type ");
        match &ty.kind {
            TypeKind::Named(n) => {
                push_str(&mut what, "'");
                push_str(&mut what, n.as_str());
                push_str(&mut what, "'");
                proof {
                    reveal_strlit("field type ");
                    reveal_strlit("field type '");
                    reveal_strlit("'");
                    assert(what@ =~= "field type '"@ + n@ + "'"@);
                }
            },
            _ => {
                let text = type_debug_text(ty);
                push_str(&mut what, text.as_str());
            },
        }
        let e = InterpretError::unsupported(what.as_str(), Span::default());
        assert(e.message@ == field_type_message(*ty));
        e
    }
}

} // verus!
