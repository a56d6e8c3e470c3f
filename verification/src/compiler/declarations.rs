//! The compiler's declaration passes: before any function is compiled, every
//! struct, union, enum and `error` type of the program and its loaded
//! modules is registered, struct fields are laid out and union members are
//! resolved and checked.
//!
//! The units (the main program, then each loaded module) are walked as one
//! run of items in order. Struct and union ids are the index of the first
//! declaration of a name; a later enum of the same name replaces an earlier
//! one.

use vstd::prelude::*;
use crate::compiler::error_types::{fill_spec, ErrorTables, ErrorTablesView, FillFailure};
use crate::compiler::errors::{is_new_error, CompileError};
use crate::compiler::types::{
    names_view,
    elem_size_of, field_offset, layout, point_span, resolve_in, resolve_in_spec, struct_align,
    struct_size, ty_debug, ty_debug_spec, CResult, Failure, FieldLayout, StructLayout, Ty,
};
use crate::diagnostics::span::span_at;
use crate::diagnostics::Span;
use crate::parser::ast::{EnumMember, Field, Program, Stmt, StmtKind, Type};
use crate::parser::literals::{decode_int_literal, int_literal_value, quoted_message};
use crate::text::{owned, push_str, str_eq};

verus! {

/// A declaration failure: message, the span it points at, and code.
pub type DeclFailure = (Seq<char>, Span, Seq<char>);

/// `e` is the error that reports failure `f`.
pub open spec fn fails_with(e: CompileError, f: DeclFailure) -> bool {
    is_new_error(*e.diagnostic, f.0, f.1, f.2)
}

/// The items of every unit, in order.
pub open spec fn flat_items(units: Seq<Program>) -> Seq<Stmt>
    decreases units.len(),
{
    if units.len() == 0 {
        Seq::empty()
    } else {
        flat_items(units.drop_last()) + units.last().items@
    }
}

/// `p` points at item `s`: unit `p.0`, item `p.1`.
pub open spec fn refers(units: Seq<Program>, p: (usize, usize), s: Stmt) -> bool {
    &&& (p.0 as int) < units.len()
    &&& (p.1 as int) < units[p.0 as int].items@.len()
    &&& units[p.0 as int].items@[p.1 as int] == s
}

/// Where each item of the units stands, in the order of `flat_items`.
fn item_refs(units: &Vec<Program>) -> (r: Vec<(usize, usize)>)
    ensures
        r@.len() == flat_items(units@).len(),
        forall|k: int| 0 <= k < r@.len() ==> refers(units@, #[trigger] r@[k], flat_items(units@)[k]),
{
    let mut r: Vec<(usize, usize)> = Vec::new();
    let mut u: usize = 0;
    while u < units.len()
        invariant
            0 <= u <= units@.len(),
            r@.len() == flat_items(units@.take(u as int)).len(),
            forall|k: int|
                0 <= k < r@.len() ==> refers(units@, #[trigger] r@[k], flat_items(units@.take(u as int))[k]),
        decreases units@.len() - u,
    {
        let ghost before = flat_items(units@.take(u as int));
        let items = &units[u].items;
        let mut i: usize = 0;
        while i < items.len()
            invariant
                0 <= u < units@.len(),
                *items == units@[u as int].items,
                0 <= i <= items@.len(),
                r@.len() == before.len() + i,
                forall|k: int|
                    0 <= k < r@.len() ==> refers(
                        units@,
                        #[trigger] r@[k],
                        (before + items@.take(i as int))[k],
                    ),
            decreases items@.len() - i,
        {
            r.push((u, i));
            proof {
                assert forall|k: int| 0 <= k < r@.len() implies refers(
                    units@,
                    #[trigger] r@[k],
                    (before + items@.take(i + 1))[k],
                ) by {
                    if k < r@.len() - 1 {
                        assert((before + items@.take(i + 1))[k] == (before + items@.take(i as int))[k]);
                    }
                }
            }
            i += 1;
        }
        proof {
            assert(units@.take(u + 1).drop_last() =~= units@.take(u as int));
            assert(items@.take(i as int) =~= items@);
            assert(flat_items(units@.take(u + 1)) == before + items@);
        }
        u += 1;
    }
    assert(units@.take(u as int) =~= units@);
    r
}

// ---------------------------------------------------------------------------
// Struct and union names
// ---------------------------------------------------------------------------

/// A struct layout by value, offsets and sizes as integers.
pub struct LayoutView {
    pub name: Seq<char>,
    pub fields: Seq<(Seq<char>, Ty, int)>,
    pub size: int,
    pub align: int,
}

pub open spec fn layout_view(l: StructLayout) -> LayoutView {
    LayoutView {
        name: l.name@,
        fields: l.fields@.map_values(|f: FieldLayout| (f.name@, f.ty, f.offset as int)),
        size: l.size as int,
        align: l.align as int,
    }
}

pub open spec fn layouts_view(ls: Seq<StructLayout>) -> Seq<LayoutView> {
    ls.map_values(|l: StructLayout| layout_view(l))
}

/// A struct registered by name whose fields are not laid out yet.
pub open spec fn placeholder(name: Seq<char>) -> LayoutView {
    LayoutView { name, fields: Seq::empty(), size: 0, align: 1 }
}

/// The natural layout of `fields` (see `layout`).
pub open spec fn computed_layout(name: Seq<char>, fields: Seq<(Seq<char>, Ty)>) -> LayoutView {
    let tys = fields.map_values(|f: (Seq<char>, Ty)| f.1);
    LayoutView {
        name,
        fields: Seq::new(fields.len(), |i: int| (fields[i].0, fields[i].1, field_offset(tys, i))),
        size: struct_size(tys),
        align: struct_align(tys),
    }
}

/// One placeholder per struct declaration, in order.
pub open spec fn struct_pass(items: Seq<Stmt>) -> Seq<LayoutView>
    decreases items.len(),
{
    if items.len() == 0 {
        Seq::empty()
    } else {
        let prev = struct_pass(items.drop_last());
        match items.last().kind {
            StmtKind::Struct(d) => prev.push(placeholder(d.name@)),
            _ => prev,
        }
    }
}

/// One memberless union per union declaration, in order.
pub open spec fn union_pass(items: Seq<Stmt>) -> Seq<(Seq<char>, Seq<Ty>)>
    decreases items.len(),
{
    if items.len() == 0 {
        Seq::empty()
    } else {
        let prev = union_pass(items.drop_last());
        match items.last().kind {
            StmtKind::Union(d) => prev.push((d.name@, Seq::empty())),
            _ => prev,
        }
    }
}

/// The index of the first occurrence of `x` in `s`.
pub open spec fn first_named(s: Seq<Seq<char>>, x: Seq<char>) -> Option<int>
    decreases s.len(),
{
    if s.len() == 0 {
        None
    } else if s[0] == x {
        Some(0)
    } else {
        match first_named(s.drop_first(), x) {
            Some(i) => Some(i + 1),
            None => None,
        }
    }
}

proof fn lemma_first_named_skip(s: Seq<Seq<char>>, x: Seq<char>, i: int)
    requires
        0 <= i <= s.len(),
        forall|j: int| 0 <= j < i ==> s[j] != x,
    ensures
        first_named(s, x) == match first_named(s.skip(i), x) {
            Some(k) => Some(k + i),
            None => None::<int>,
        },
    decreases i,
{
    if i > 0 {
        lemma_first_named_skip(s.drop_first(), x, i - 1);
        assert(s.drop_first().skip(i - 1) =~= s.skip(i));
    } else {
        assert(s.skip(0) =~= s);
    }
}

proof fn lemma_first_named_found(s: Seq<Seq<char>>, x: Seq<char>)
    ensures
        first_named(s, x) matches Some(i) ==> 0 <= i < s.len() && s[i] == x,
    decreases s.len(),
{
    if s.len() > 0 && s[0] != x {
        lemma_first_named_found(s.drop_first(), x);
    }
}

/// The index of the first entry of `names` equal to `x`.
fn find_first(names: &Vec<String>, x: &str) -> (r: Option<usize>)
    ensures
        match r {
            Some(i) => first_named(names@.map_values(|n: String| n@), x@) == Some(i as int) && i
                < names@.len(),
            None => forall|j: int| 0 <= j < names@.len() ==> (#[trigger] names@[j])@ != x@,
        },
{
    let ghost s = names@.map_values(|n: String| n@);
    let mut i: usize = 0;
    while i < names.len()
        invariant
            0 <= i <= names@.len(),
            s == names@.map_values(|n: String| n@),
            forall|j: int| 0 <= j < i ==> (#[trigger] names@[j])@ != x@,
        decreases names@.len() - i,
    {
        if str_eq(names[i].as_str(), x) {
            proof {
                assert forall|j: int| 0 <= j < i implies s[j] != x@ by {
                    assert(s[j] == names@[j]@);
                }
                lemma_first_named_skip(s, x@, i as int);
                assert(s.skip(i as int)[0] == x@);
            }
            return Some(i);
        }
        i += 1;
    }
    None
}

// ---------------------------------------------------------------------------
// Enums
// ---------------------------------------------------------------------------

/// One more than `v`, saturating at the largest `i64`.
pub open spec fn sat_next(v: i64) -> i64 {
    if v == i64::MAX {
        v
    } else {
        (v + 1) as i64
    }
}

pub open spec fn out_of_range_message(member: Seq<char>, raw: Seq<char>) -> Seq<char> {
    "enum member '"@ + member + "' value '"@ + raw + "' is out of range"@
}

/// The values of enum members `ms`: a member with a literal takes its value
/// (which must fit an `i64`), one without takes one more than the member
/// before it (saturating; `next` for the first).
pub open spec fn enum_values(ms: Seq<EnumMember>, next: i64, span: Span) -> Result<
    Seq<(Seq<char>, i64)>,
    DeclFailure,
>
    decreases ms.len(),
{
    if ms.len() == 0 {
        Ok(Seq::empty())
    } else {
        let m = ms[0];
        let v: Result<i64, DeclFailure> = match m.value {
            None => Ok(next),
            Some(raw) => match int_literal_value(raw@) {
                None => Err((quoted_message("invalid integer literal '"@, raw@, "'"@), span, "E363"@)),
                Some(n) => if n < i64::MIN || n > i64::MAX {
                    Err((out_of_range_message(m.name@, raw@), span, "E364"@))
                } else {
                    Ok(n as i64)
                },
            },
        };
        match v {
            Err(f) => Err(f),
            Ok(x) => match enum_values(ms.drop_first(), sat_next(x), span) {
                Err(f) => Err(f),
                Ok(rest) => Ok(seq![(m.name@, x)] + rest),
            },
        }
    }
}

/// Every enum declaration with its member values, in order.
pub open spec fn enum_pass(items: Seq<Stmt>) -> Result<Seq<(Seq<char>, Seq<(Seq<char>, i64)>)>, DeclFailure>
    decreases items.len(),
{
    if items.len() == 0 {
        Ok(Seq::empty())
    } else {
        match enum_pass(items.drop_last()) {
            Err(f) => Err(f),
            Ok(prev) => match items.last().kind {
                StmtKind::Enum(d) => match enum_values(d.members@, 0, items.last().span) {
                    Err(f) => Err(f),
                    Ok(ms) => Ok(prev.push((d.name@, ms))),
                },
                _ => Ok(prev),
            },
        }
    }
}

/// A registered enum: its name and its members with their values.
#[derive(Debug)]
pub struct EnumInfo {
    pub name: String,
    pub members: Vec<(String, i64)>,
}

pub open spec fn members_view(ms: Seq<(String, i64)>) -> Seq<(Seq<char>, i64)> {
    ms.map_values(|m: (String, i64)| (m.0@, m.1))
}

pub open spec fn enum_view(e: EnumInfo) -> (Seq<char>, Seq<(Seq<char>, i64)>) {
    (e.name@, members_view(e.members@))
}

/// The members of one enum declaration with their values.
fn enum_members(ms: &Vec<EnumMember>, span: Span) -> (r: CResult<Vec<(String, i64)>>)
    ensures
        match enum_values(ms@, 0, span) {
            Ok(v) => r matches Ok(out) && members_view(out@) == v,
            Err(f) => r matches Err(e) && fails_with(e, f),
        },
{
    let mut out: Vec<(String, i64)> = Vec::new();
    let mut next: i64 = 0;
    let mut i: usize = 0;
    proof {
        assert(ms@.skip(0) =~= ms@);
        match enum_values(ms@, 0, span) {
            Ok(rest) => assert(members_view(out@) + rest =~= rest),
            Err(_) => {},
        }
    }
    while i < ms.len()
        invariant
            0 <= i <= ms@.len(),
            enum_values(ms@, 0, span) == match enum_values(ms@.skip(i as int), next, span) {
                Ok(rest) => Ok(members_view(out@) + rest),
                Err(f) => Err::<Seq<(Seq<char>, i64)>, DeclFailure>(f),
            },
        decreases ms@.len() - i,
    {
        let m = &ms[i];
        proof {
            assert(ms@.skip(i as int)[0] == ms@[i as int]);
            assert(ms@.skip(i as int).drop_first() =~= ms@.skip(i + 1));
        }
        let v: i64 = match &m.value {
            None => next,
            Some(raw) => match decode_int_literal(raw.as_str()) {
                Err(msg) => {
                    return Err(CompileError::new(msg, span, owned("E363")));
                },
                Ok(n) => {
                    if n < i64::MIN as i128 || n > i64::MAX as i128 {
                        let mut msg = owned("enum member '");
                        push_str(&mut msg, m.name.as_str());
                        push_str(&mut msg, "' value '");
                        push_str(&mut msg, raw.as_str());
                        push_str(&mut msg, "' is out of range");
                        return Err(CompileError::new(msg, span, owned("E364")));
                    }
                    n as i64
                },
            },
        };
        next = if v == i64::MAX { v } else { v + 1 };
        let ghost prev_out = out@;
        out.push((owned(m.name.as_str()), v));
        proof {
            assert(members_view(out@) =~= members_view(prev_out) + seq![(m.name@, v)]);
            match enum_values(ms@.skip(i + 1), next, span) {
                Ok(rest) => {
                    assert(members_view(prev_out) + (seq![(m.name@, v)] + rest) =~= members_view(out@)
                        + rest);
                },
                Err(_) => {},
            }
        }
        i += 1;
    }
    proof {
        assert(ms@.skip(i as int) =~= Seq::<EnumMember>::empty());
        assert(members_view(out@) + Seq::<(Seq<char>, i64)>::empty() =~= members_view(out@));
    }
    Ok(out)
}

// ---------------------------------------------------------------------------
// Error types
// ---------------------------------------------------------------------------

/// Tables with no error type and no interned member.
pub open spec fn empty_errors() -> ErrorTablesView {
    ErrorTablesView {
        ids: Map::empty(),
        count: 0,
        type_ids: Map::empty(),
        types: Seq::empty(),
    }
}

/// Declaring error type `name`, with no members, unless it is known.
pub open spec fn declare_error(v: ErrorTablesView, name: Seq<char>) -> ErrorTablesView {
    if v.type_ids.contains_key(name) {
        v
    } else {
        ErrorTablesView {
            type_ids: v.type_ids.insert(name, v.types.len() as u32),
            types: v.types.push((name, Seq::empty())),
            ..v
        }
    }
}

/// Every error declaration's name declared in order.
pub open spec fn declare_errors(items: Seq<Stmt>, v: ErrorTablesView) -> ErrorTablesView
    decreases items.len(),
{
    if items.len() == 0 {
        v
    } else {
        let prev = declare_errors(items.drop_last(), v);
        match items.last().kind {
            StmtKind::Error(d) => declare_error(prev, d.name@),
            _ => prev,
        }
    }
}

/// The members of the error declarations with (`injected`) or without an
/// injected type filled in order, up to the first failure.
pub open spec fn fill_errors(items: Seq<Stmt>, v: ErrorTablesView, injected: bool) -> (
    ErrorTablesView,
    Option<FillFailure>,
)
    decreases items.len(),
{
    if items.len() == 0 {
        (v, None)
    } else {
        let prev = fill_errors(items.drop_last(), v, injected);
        if prev.1 is Some {
            prev
        } else {
            match items.last().kind {
                StmtKind::Error(d) => if d.inject is Some == injected {
                    fill_spec(prev.0, d)
                } else {
                    prev
                },
                _ => prev,
            }
        }
    }
}

/// A failed fill is reported at the default span.
pub open spec fn fill_failure(f: FillFailure) -> DeclFailure {
    (f.0, span_at(0, 0, 1, 1), f.1)
}

/// All error types declared, then those without an injected type filled,
/// then those with one.
pub open spec fn error_pass(items: Seq<Stmt>) -> Result<ErrorTablesView, DeclFailure> {
    let declared = declare_errors(items, empty_errors());
    let plain = fill_errors(items, declared, false);
    match plain.1 {
        Some(f) => Err(fill_failure(f)),
        None => {
            let injected = fill_errors(items, plain.0, true);
            match injected.1 {
                Some(f) => Err(fill_failure(f)),
                None => Ok(injected.0),
            }
        },
    }
}

proof fn lemma_fill_stops(items: Seq<Stmt>, v: ErrorTablesView, injected: bool, m: int)
    requires
        0 <= m <= items.len(),
        fill_errors(items.take(m), v, injected).1 is Some,
    ensures
        fill_errors(items, v, injected) == fill_errors(items.take(m), v, injected),
    decreases items.len() - m,
{
    if m < items.len() {
        assert(items.drop_last().take(m) =~= items.take(m));
        lemma_fill_stops(items.drop_last(), v, injected, m);
    } else {
        assert(items.take(m) =~= items);
    }
}

proof fn lemma_enum_stops(items: Seq<Stmt>, m: int)
    requires
        0 <= m <= items.len(),
        enum_pass(items.take(m)) is Err,
    ensures
        enum_pass(items) == enum_pass(items.take(m)),
    decreases items.len() - m,
{
    if m < items.len() {
        assert(items.drop_last().take(m) =~= items.take(m));
        lemma_enum_stops(items.drop_last(), m);
    } else {
        assert(items.take(m) =~= items);
    }
}

/// `refs` points at the items of `units`, in order.
pub open spec fn refs_ok(units: Seq<Program>, refs: Seq<(usize, usize)>) -> bool {
    &&& refs.len() == flat_items(units).len()
    &&& forall|k: int| 0 <= k < refs.len() ==> refers(units, #[trigger] refs[k], flat_items(units)[k])
}

proof fn lemma_step(items: Seq<Stmt>, k: int)
    requires
        0 <= k < items.len(),
    ensures
        items.take(k + 1).drop_last() == items.take(k),
        items.take(k + 1).last() == items[k],
        items.take(k + 1).len() == k + 1,
{
    assert(items.take(k + 1).drop_last() =~= items.take(k));
}

// ---------------------------------------------------------------------------
// Registration passes
// ---------------------------------------------------------------------------

/// A registered union: its name and its member types.
#[derive(Debug)]
pub struct UnionInfo {
    pub name: String,
    pub members: Vec<Ty>,
}

pub open spec fn unions_view(us: Seq<UnionInfo>) -> Seq<(Seq<char>, Seq<Ty>)> {
    us.map_values(|u: UnionInfo| (u.name@, u.members@))
}

pub open spec fn enums_view(es: Seq<EnumInfo>) -> Seq<(Seq<char>, Seq<(Seq<char>, i64)>)> {
    es.map_values(|e: EnumInfo| enum_view(e))
}

/// Pass A: a placeholder layout for every struct declaration.
fn register_structs(units: &Vec<Program>, refs: &Vec<(usize, usize)>) -> (r: Vec<StructLayout>)
    requires
        refs_ok(units@, refs@),
    ensures
        layouts_view(r@) == struct_pass(flat_items(units@)),
{
    let ghost items = flat_items(units@);
    let mut out: Vec<StructLayout> = Vec::new();
    let mut k: usize = 0;
    while k < refs.len()
        invariant
            refs_ok(units@, refs@),
            items == flat_items(units@),
            0 <= k <= refs@.len(),
            layouts_view(out@) == struct_pass(items.take(k as int)),
        decreases refs@.len() - k,
    {
        let p = refs[k];
        let item = &units[p.0].items[p.1];
        proof {
            assert(refers(units@, refs@[k as int], items[k as int]));
            lemma_step(items, k as int);
        }
        let ghost prev = out@;
        match &item.kind {
            StmtKind::Struct(d) => {
                out.push(StructLayout { name: owned(d.name.as_str()), fields: Vec::new(), size: 0, align: 1 });
                proof {
                    assert(layout_view(out@.last()).fields =~= Seq::<(Seq<char>, Ty, int)>::empty());
                    assert(layouts_view(out@) =~= layouts_view(prev).push(placeholder(d.name@)));
                }
            },
            _ => {},
        }
        k += 1;
    }
    assert(items.take(k as int) =~= items);
    out
}

/// Pass A1: a memberless union for every union declaration.
fn register_unions(units: &Vec<Program>, refs: &Vec<(usize, usize)>) -> (r: Vec<UnionInfo>)
    requires
        refs_ok(units@, refs@),
    ensures
        unions_view(r@) == union_pass(flat_items(units@)),
{
    let ghost items = flat_items(units@);
    let mut out: Vec<UnionInfo> = Vec::new();
    let mut k: usize = 0;
    while k < refs.len()
        invariant
            refs_ok(units@, refs@),
            items == flat_items(units@),
            0 <= k <= refs@.len(),
            unions_view(out@) == union_pass(items.take(k as int)),
        decreases refs@.len() - k,
    {
        let p = refs[k];
        let item = &units[p.0].items[p.1];
        proof {
            assert(refers(units@, refs@[k as int], items[k as int]));
            lemma_step(items, k as int);
        }
        let ghost prev = out@;
        match &item.kind {
            StmtKind::Union(d) => {
                out.push(UnionInfo { name: owned(d.name.as_str()), members: Vec::new() });
                proof {
                    assert(out@.last().members@ =~= Seq::<Ty>::empty());
                    assert(unions_view(out@) =~= unions_view(prev).push((d.name@, Seq::empty())));
                }
            },
            _ => {},
        }
        k += 1;
    }
    assert(items.take(k as int) =~= items);
    out
}

/// Pass A2: every enum with its member values.
fn register_enums(units: &Vec<Program>, refs: &Vec<(usize, usize)>) -> (r: CResult<Vec<EnumInfo>>)
    requires
        refs_ok(units@, refs@),
    ensures
        match enum_pass(flat_items(units@)) {
            Ok(v) => r matches Ok(out) && enums_view(out@) == v,
            Err(f) => r matches Err(e) && fails_with(e, f),
        },
{
    let ghost items = flat_items(units@);
    let mut out: Vec<EnumInfo> = Vec::new();
    let mut k: usize = 0;
    assert(enums_view(out@) =~= Seq::empty());
    while k < refs.len()
        invariant
            refs_ok(units@, refs@),
            items == flat_items(units@),
            0 <= k <= refs@.len(),
            enum_pass(items.take(k as int)) == Ok::<_, DeclFailure>(enums_view(out@)),
        decreases refs@.len() - k,
    {
        let p = refs[k];
        let item = &units[p.0].items[p.1];
        proof {
            assert(refers(units@, refs@[k as int], items[k as int]));
            lemma_step(items, k as int);
        }
        let ghost prev = out@;
        match &item.kind {
            StmtKind::Enum(d) => {
                let members = match enum_members(&d.members, item.span) {
                    Ok(ms) => ms,
                    Err(e) => {
                        proof {
                            lemma_enum_stops(items, k + 1);
                        }
                        return Err(e);
                    },
                };
                out.push(EnumInfo { name: owned(d.name.as_str()), members });
                proof {
                    assert(enums_view(out@) =~= enums_view(prev).push((d.name@, members_view(members@))));
                }
            },
            _ => {},
        }
        k += 1;
    }
    assert(items.take(k as int) =~= items);
    Ok(out)
}

/// Pass A3: every error type declared, then filled (those without an
/// injected type first).
fn register_errors(units: &Vec<Program>, refs: &Vec<(usize, usize)>) -> (r: CResult<ErrorTables>)
    requires
        refs_ok(units@, refs@),
    ensures
        match error_pass(flat_items(units@)) {
            Ok(v) => r matches Ok(t) && t.wf() && t.view() == v,
            Err(f) => r matches Err(e) && fails_with(e, f),
        },
{
    let ghost items = flat_items(units@);
    let mut t = ErrorTables::new();
    let mut k: usize = 0;
    while k < refs.len()
        invariant
            refs_ok(units@, refs@),
            items == flat_items(units@),
            0 <= k <= refs@.len(),
            t.wf(),
            t.view() == declare_errors(items.take(k as int), empty_errors()),
        decreases refs@.len() - k,
    {
        let p = refs[k];
        let item = &units[p.0].items[p.1];
        proof {
            assert(refers(units@, refs@[k as int], items[k as int]));
            lemma_step(items, k as int);
        }
        match &item.kind {
            StmtKind::Error(d) => {
                t.declare(d.name.as_str());
            },
            _ => {},
        }
        k += 1;
    }
    assert(items.take(k as int) =~= items);
    let ghost declared = t.view();
    let mut pass: usize = 0;
    while pass < 2
        invariant
            refs_ok(units@, refs@),
            items == flat_items(units@),
            declared == declare_errors(items, empty_errors()),
            0 <= pass <= 2,
            t.wf(),
            pass == 0 ==> t.view() == declared,
            pass >= 1 ==> fill_errors(items, declared, false).1 is None,
            pass == 1 ==> t.view() == fill_errors(items, declared, false).0,
            pass == 2 ==> fill_errors(items, fill_errors(items, declared, false).0, true).1 is None
                && t.view() == fill_errors(items, fill_errors(items, declared, false).0, true).0,
        decreases 2 - pass,
    {
        let injected = pass == 1;
        let ghost start = t.view();
        let mut k: usize = 0;
        while k < refs.len()
            invariant
                refs_ok(units@, refs@),
                items == flat_items(units@),
                declared == declare_errors(items, empty_errors()),
                injected == (pass == 1),
                pass < 2,
                pass == 0 ==> start == declared,
                pass == 1 ==> start == fill_errors(items, declared, false).0 && fill_errors(
                    items,
                    declared,
                    false,
                ).1 is None,
                0 <= k <= refs@.len(),
                t.wf(),
                fill_errors(items.take(k as int), start, injected).1 is None,
                t.view() == fill_errors(items.take(k as int), start, injected).0,
            decreases refs@.len() - k,
        {
            let p = refs[k];
            let item = &units[p.0].items[p.1];
            proof {
                assert(refers(units@, refs@[k as int], items[k as int]));
                lemma_step(items, k as int);
            }
            match &item.kind {
                StmtKind::Error(d) => {
                    let has_inject = match &d.inject {
                        Some(_) => true,
                        None => false,
                    };
                    if has_inject == injected {
                        let ghost before = t.view();
                        match t.fill_error_type(d) {
                            Ok(()) => {},
                            Err(e) => {
                                proof {
                                    assert(fill_errors(items.take(k + 1), start, injected) == fill_spec(
                                        before,
                                        *d,
                                    ));
                                    lemma_fill_stops(items, start, injected, k + 1);
                                }
                                return Err(e);
                            },
                        }
                    }
                },
                _ => {},
            }
            k += 1;
        }
        assert(items.take(k as int) =~= items);
        pass += 1;
    }
    Ok(t)
}

// ---------------------------------------------------------------------------
// Resolving struct fields and union members
// ---------------------------------------------------------------------------

pub open spec fn layout_names(s: Seq<LayoutView>) -> Seq<Seq<char>> {
    s.map_values(|l: LayoutView| l.name)
}

pub open spec fn union_names(s: Seq<(Seq<char>, Seq<Ty>)>) -> Seq<Seq<char>> {
    s.map_values(|u: (Seq<char>, Seq<Ty>)| u.0)
}

/// The table names resolve against: structs and unions by the index of
/// their first declaration, then the error types, then enums by their last
/// declaration.
pub open spec fn named_table(
    structs: Seq<LayoutView>,
    unions: Seq<(Seq<char>, Seq<Ty>)>,
    errors: ErrorTablesView,
    enums: Seq<(Seq<char>, Seq<(Seq<char>, i64)>)>,
) -> Seq<(Seq<char>, Ty)> {
    Seq::new(structs.len(), |i: int| (structs[i].name, Ty::Struct(i as u32))) + Seq::new(
        unions.len(),
        |i: int| (unions[i].0, Ty::Union(i as u32)),
    ) + Seq::new(errors.types.len(), |i: int| (errors.types[i].0, Ty::Error)) + Seq::new(
        enums.len(),
        |i: int| (enums[enums.len() - 1 - i].0, Ty::Enum((enums.len() - 1 - i) as u32)),
    )
}

/// A failed type resolution, reported at its location.
pub open spec fn as_decl_failure(f: Failure) -> DeclFailure {
    (f.0, point_span(f.2), f.1)
}

/// The fields of a struct with their resolved types, or the first failure.
pub open spec fn resolved_fields(fs: Seq<Field>, named: Seq<(Seq<char>, Ty)>) -> Result<
    Seq<(Seq<char>, Ty)>,
    DeclFailure,
>
    decreases fs.len(),
{
    if fs.len() == 0 {
        Ok(Seq::empty())
    } else {
        match resolved_fields(fs.drop_last(), named) {
            Err(f) => Err(f),
            Ok(prev) => match resolve_in_spec(fs.last().ty, named, true) {
                Err(f) => Err(as_decl_failure(f)),
                Ok(t) => Ok(prev.push((fs.last().name@, t))),
            },
        }
    }
}

/// Pass B: each struct declaration's fields laid out, stored at the id of
/// its name.
pub open spec fn layout_pass(items: Seq<Stmt>, named: Seq<(Seq<char>, Ty)>, s0: Seq<LayoutView>) -> Result<
    Seq<LayoutView>,
    DeclFailure,
>
    decreases items.len(),
{
    if items.len() == 0 {
        Ok(s0)
    } else {
        match layout_pass(items.drop_last(), named, s0) {
            Err(f) => Err(f),
            Ok(prev) => match items.last().kind {
                StmtKind::Struct(d) => match resolved_fields(d.fields@, named) {
                    Err(f) => Err(f),
                    Ok(fs) => match first_named(layout_names(prev), d.name@) {
                        Some(i) => Ok(prev.update(i, computed_layout(d.name@, fs))),
                        None => Ok(prev),
                    },
                },
                _ => Ok(prev),
            },
        }
    }
}

pub open spec fn wide_member_message(mt: Ty) -> Seq<char> {
    "union member type '"@ + ty_debug_spec(mt) + "' is wider than 8 bytes"@
}

pub open spec fn duplicate_member_message(name: Seq<char>, mt: Ty) -> Seq<char> {
    "union '"@ + name + "' has duplicate member type '"@ + ty_debug_spec(mt) + "'"@
}

pub open spec fn empty_union_message(name: Seq<char>) -> Seq<char> {
    "union '"@ + name + "' must have at least one member type"@
}

/// The member types of union `name`, each resolved, no wider than a
/// pointer and distinct, or the first failure.
pub open spec fn union_members(ts: Seq<Type>, named: Seq<(Seq<char>, Ty)>, name: Seq<char>, span: Span) -> Result<
    Seq<Ty>,
    DeclFailure,
>
    decreases ts.len(),
{
    if ts.len() == 0 {
        Ok(Seq::empty())
    } else {
        match union_members(ts.drop_last(), named, name, span) {
            Err(f) => Err(f),
            Ok(prev) => match resolve_in_spec(ts.last(), named, true) {
                Err(f) => Err(as_decl_failure(f)),
                Ok(mt) => if elem_size_of(mt) > 8 {
                    Err((wide_member_message(mt), span, "E346"@))
                } else if prev.contains(mt) {
                    Err((duplicate_member_message(name, mt), span, "E346"@))
                } else {
                    Ok(prev.push(mt))
                },
            },
        }
    }
}

/// Pass B1: each union declaration's members, stored at the id of its name;
/// a union needs at least one member.
pub open spec fn union_member_pass(
    items: Seq<Stmt>,
    named: Seq<(Seq<char>, Ty)>,
    u0: Seq<(Seq<char>, Seq<Ty>)>,
) -> Result<Seq<(Seq<char>, Seq<Ty>)>, DeclFailure>
    decreases items.len(),
{
    if items.len() == 0 {
        Ok(u0)
    } else {
        match union_member_pass(items.drop_last(), named, u0) {
            Err(f) => Err(f),
            Ok(prev) => match items.last().kind {
                StmtKind::Union(d) => if d.types@.len() == 0 {
                    Err((empty_union_message(d.name@), items.last().span, "E346"@))
                } else {
                    match union_members(d.types@, named, d.name@, items.last().span) {
                        Err(f) => Err(f),
                        Ok(ms) => match first_named(union_names(prev), d.name@) {
                            Some(i) => Ok(prev.update(i, (d.name@, ms))),
                            None => Ok(prev),
                        },
                    }
                },
                _ => Ok(prev),
            },
        }
    }
}

proof fn lemma_fields_stop(fs: Seq<Field>, named: Seq<(Seq<char>, Ty)>, m: int)
    requires
        0 <= m <= fs.len(),
        resolved_fields(fs.take(m), named) is Err,
    ensures
        resolved_fields(fs, named) == resolved_fields(fs.take(m), named),
    decreases fs.len() - m,
{
    if m < fs.len() {
        assert(fs.drop_last().take(m) =~= fs.take(m));
        lemma_fields_stop(fs.drop_last(), named, m);
    } else {
        assert(fs.take(m) =~= fs);
    }
}

proof fn lemma_members_stop(ts: Seq<Type>, named: Seq<(Seq<char>, Ty)>, name: Seq<char>, span: Span, m: int)
    requires
        0 <= m <= ts.len(),
        union_members(ts.take(m), named, name, span) is Err,
    ensures
        union_members(ts, named, name, span) == union_members(ts.take(m), named, name, span),
    decreases ts.len() - m,
{
    if m < ts.len() {
        assert(ts.drop_last().take(m) =~= ts.take(m));
        lemma_members_stop(ts.drop_last(), named, name, span, m);
    } else {
        assert(ts.take(m) =~= ts);
    }
}

proof fn lemma_layout_stop(items: Seq<Stmt>, named: Seq<(Seq<char>, Ty)>, s0: Seq<LayoutView>, m: int)
    requires
        0 <= m <= items.len(),
        layout_pass(items.take(m), named, s0) is Err,
    ensures
        layout_pass(items, named, s0) == layout_pass(items.take(m), named, s0),
    decreases items.len() - m,
{
    if m < items.len() {
        assert(items.drop_last().take(m) =~= items.take(m));
        lemma_layout_stop(items.drop_last(), named, s0, m);
    } else {
        assert(items.take(m) =~= items);
    }
}

proof fn lemma_union_stop(
    items: Seq<Stmt>,
    named: Seq<(Seq<char>, Ty)>,
    u0: Seq<(Seq<char>, Seq<Ty>)>,
    m: int,
)
    requires
        0 <= m <= items.len(),
        union_member_pass(items.take(m), named, u0) is Err,
    ensures
        union_member_pass(items, named, u0) == union_member_pass(items.take(m), named, u0),
    decreases items.len() - m,
{
    if m < items.len() {
        assert(items.drop_last().take(m) =~= items.take(m));
        lemma_union_stop(items.drop_last(), named, u0, m);
    } else {
        assert(items.take(m) =~= items);
    }
}

/// Resolve the types of struct fields `fs`, in order.
fn resolve_fields(fs: &Vec<Field>, named: &Vec<(String, Ty)>) -> (r: CResult<Vec<(String, Ty)>>)
    ensures
        match resolved_fields(fs@, names_view(named@)) {
            Ok(v) => r matches Ok(out) && names_view(out@) == v && out@.len() == fs@.len(),
            Err(f) => r matches Err(e) && fails_with(e, f),
        },
{
    let ghost nv = names_view(named@);
    let mut out: Vec<(String, Ty)> = Vec::new();
    let mut i: usize = 0;
    assert(names_view(out@) =~= Seq::empty());
    while i < fs.len()
        invariant
            nv == names_view(named@),
            0 <= i <= fs@.len(),
            out@.len() == i,
            resolved_fields(fs@.take(i as int), nv) == Ok::<_, DeclFailure>(names_view(out@)),
        decreases fs@.len() - i,
    {
        proof {
            assert(fs@.take(i + 1).drop_last() =~= fs@.take(i as int));
        }
        let t = match resolve_in(&fs[i].ty, named, true) {
            Ok(t) => t,
            Err(e) => {
                proof {
                    lemma_fields_stop(fs@, nv, i + 1);
                }
                return Err(e);
            },
        };
        let ghost prev = out@;
        out.push((owned(fs[i].name.as_str()), t));
        proof {
            assert(names_view(out@) =~= names_view(prev).push((fs@[i as int].name@, t)));
        }
        i += 1;
    }
    assert(fs@.take(i as int) =~= fs@);
    Ok(out)
}

/// Whether `tys` holds `t`.
fn has_ty(tys: &Vec<Ty>, t: Ty) -> (r: bool)
    ensures
        r == tys@.contains(t),
{
    let mut i: usize = 0;
    while i < tys.len()
        invariant
            0 <= i <= tys@.len(),
            forall|j: int| 0 <= j < i ==> tys@[j] != t,
        decreases tys@.len() - i,
    {
        if tys[i] == t {
            return true;
        }
        i += 1;
    }
    false
}

/// Resolve and check the member types of union `name`.
#[verifier::rlimit(40)]
fn resolve_union_members(ts: &Vec<Type>, named: &Vec<(String, Ty)>, name: &str, span: Span) -> (r: CResult<
    Vec<Ty>,
>)
    ensures
        match union_members(ts@, names_view(named@), name@, span) {
            Ok(v) => r matches Ok(out) && out@ == v,
            Err(f) => r matches Err(e) && fails_with(e, f),
        },
{
    let ghost nv = names_view(named@);
    let mut out: Vec<Ty> = Vec::new();
    let mut i: usize = 0;
    assert(out@ =~= Seq::<Ty>::empty());
    while i < ts.len()
        invariant
            nv == names_view(named@),
            0 <= i <= ts@.len(),
            union_members(ts@.take(i as int), nv, name@, span) == Ok::<_, DeclFailure>(out@),
        decreases ts@.len() - i,
    {
        proof {
            assert(ts@.take(i + 1).drop_last() =~= ts@.take(i as int));
            assert(ts@.take(i + 1).last() == ts@[i as int]);
        }
        let mt = match resolve_in(&ts[i], named, true) {
            Ok(t) => t,
            Err(e) => {
                proof {
                    lemma_members_stop(ts@, nv, name@, span, i + 1);
                }
                return Err(e);
            },
        };
        if mt.elem_size() > 8 {
            let mut m = owned("union member type '");
            push_str(&mut m, ty_debug(mt).as_str());
            push_str(&mut m, "' is wider than 8 bytes");
            proof {
                lemma_members_stop(ts@, nv, name@, span, i + 1);
            }
            return Err(CompileError::new(m, span, owned("E346")));
        }
        if has_ty(&out, mt) {
            let mut m = owned("union '");
            push_str(&mut m, name);
            push_str(&mut m, "' has duplicate member type '");
            push_str(&mut m, ty_debug(mt).as_str());
            push_str(&mut m, "'");
            proof {
                lemma_members_stop(ts@, nv, name@, span, i + 1);
            }
            return Err(CompileError::new(m, span, owned("E346")));
        }
        let ghost prev = out@;
        out.push(mt);
        assert(out@ =~= prev.push(mt));
        i += 1;
    }
    assert(ts@.take(i as int) =~= ts@);
    Ok(out)
}

/// The table of named types (see `named_table`).
fn named_types(
    structs: &Vec<StructLayout>,
    unions: &Vec<UnionInfo>,
    errors: &ErrorTables,
    enums: &Vec<EnumInfo>,
) -> (r: Vec<(String, Ty)>)
    ensures
        names_view(r@) == named_table(
            layouts_view(structs@),
            unions_view(unions@),
            errors.view(),
            enums_view(enums@),
        ),
{
    let ghost sv = layouts_view(structs@);
    let ghost uv = unions_view(unions@);
    let ghost ev = errors.view();
    let ghost nv = enums_view(enums@);
    let ghost part1 = Seq::new(sv.len(), |i: int| (sv[i].name, Ty::Struct(i as u32)));
    let ghost part2 = Seq::new(uv.len(), |i: int| (uv[i].0, Ty::Union(i as u32)));
    let ghost part3 = Seq::new(ev.types.len(), |i: int| (ev.types[i].0, Ty::Error));
    let ghost part4 = Seq::new(
        nv.len(),
        |i: int| (nv[nv.len() - 1 - i].0, Ty::Enum((nv.len() - 1 - i) as u32)),
    );
    let mut r: Vec<(String, Ty)> = Vec::new();
    let mut i: usize = 0;
    assert(names_view(r@) =~= part1.take(0));
    while i < structs.len()
        invariant
            sv == layouts_view(structs@),
            part1 == Seq::new(sv.len(), |i: int| (sv[i].name, Ty::Struct(i as u32))),
            0 <= i <= structs@.len(),
            names_view(r@) == part1.take(i as int),
        decreases structs@.len() - i,
    {
        let ghost prev = r@;
        r.push((owned(structs[i].name.as_str()), Ty::Struct(i as u32)));
        proof {
            assert(sv[i as int] == layout_view(structs@[i as int]));
            assert(names_view(r@) =~= names_view(prev).push(part1[i as int]));
            assert(part1.take(i + 1) =~= part1.take(i as int).push(part1[i as int]));
        }
        i += 1;
    }
    assert(part1.take(i as int) =~= part1);
    let mut i: usize = 0;
    assert(names_view(r@) =~= part1 + part2.take(0));
    while i < unions.len()
        invariant
            uv == unions_view(unions@),
            part2 == Seq::new(uv.len(), |i: int| (uv[i].0, Ty::Union(i as u32))),
            0 <= i <= unions@.len(),
            names_view(r@) == part1 + part2.take(i as int),
        decreases unions@.len() - i,
    {
        let ghost prev = r@;
        r.push((owned(unions[i].name.as_str()), Ty::Union(i as u32)));
        proof {
            assert(uv[i as int] == (unions@[i as int].name@, unions@[i as int].members@));
            assert(names_view(r@) =~= names_view(prev).push(part2[i as int]));
            assert(part2.take(i + 1) =~= part2.take(i as int).push(part2[i as int]));
            assert(part1 + part2.take(i + 1) =~= (part1 + part2.take(i as int)).push(part2[i as int]));
        }
        i += 1;
    }
    assert(part2.take(i as int) =~= part2);
    let names = errors.type_names();
    let mut i: usize = 0;
    assert(names_view(r@) =~= part1 + part2 + part3.take(0));
    while i < names.len()
        invariant
            ev == errors.view(),
            names@.len() == ev.types.len(),
            forall|j: int| 0 <= j < names@.len() ==> (#[trigger] names@[j])@ == ev.types[j].0,
            part3 == Seq::new(ev.types.len(), |i: int| (ev.types[i].0, Ty::Error)),
            0 <= i <= names@.len(),
            names_view(r@) == part1 + part2 + part3.take(i as int),
        decreases names@.len() - i,
    {
        let ghost prev = r@;
        r.push((owned(names[i].as_str()), Ty::Error));
        proof {
            assert(names_view(r@) =~= names_view(prev).push(part3[i as int]));
            assert(part1 + part2 + part3.take(i + 1) =~= (part1 + part2 + part3.take(i as int)).push(
                part3[i as int],
            ));
        }
        i += 1;
    }
    assert(part3.take(i as int) =~= part3);
    let mut i: usize = 0;
    assert(names_view(r@) =~= part1 + part2 + part3 + part4.take(0));
    while i < enums.len()
        invariant
            nv == enums_view(enums@),
            part4 == Seq::new(
                nv.len(),
                |i: int| (nv[nv.len() - 1 - i].0, Ty::Enum((nv.len() - 1 - i) as u32)),
            ),
            0 <= i <= enums@.len(),
            names_view(r@) == part1 + part2 + part3 + part4.take(i as int),
        decreases enums@.len() - i,
    {
        let j = enums.len() - 1 - i;
        let ghost prev = r@;
        r.push((owned(enums[j].name.as_str()), Ty::Enum(j as u32)));
        proof {
            assert(nv[j as int] == enum_view(enums@[j as int]));
            assert(names_view(r@) =~= names_view(prev).push(part4[i as int]));
            assert(part1 + part2 + part3 + part4.take(i + 1) =~= (part1 + part2 + part3 + part4.take(
                i as int,
            )).push(part4[i as int]));
        }
        i += 1;
    }
    assert(part4.take(i as int) =~= part4);
    r
}

/// No struct declaration has more fields than an `i32` offset can reach.
pub open spec fn fields_fit(s: Stmt) -> bool {
    match s.kind {
        StmtKind::Struct(d) => 24 * d.fields@.len() <= 0x7fff_ff00,
        _ => true,
    }
}

/// Pass B: lay out the fields of every struct declaration.
fn lay_out_structs(
    units: &Vec<Program>,
    refs: &Vec<(usize, usize)>,
    named: &Vec<(String, Ty)>,
    structs: Vec<StructLayout>,
) -> (r: CResult<Vec<StructLayout>>)
    requires
        refs_ok(units@, refs@),
        forall|k: int| 0 <= k < flat_items(units@).len() ==> fields_fit(#[trigger] flat_items(units@)[k]),
    ensures
        match layout_pass(flat_items(units@), names_view(named@), layouts_view(structs@)) {
            Ok(v) => r matches Ok(out) && layouts_view(out@) == v,
            Err(f) => r matches Err(e) && fails_with(e, f),
        },
{
    let ghost items = flat_items(units@);
    let ghost nv = names_view(named@);
    let ghost s0 = layouts_view(structs@);
    let mut ids: Vec<String> = Vec::new();
    let mut j: usize = 0;
    while j < structs.len()
        invariant
            0 <= j <= structs@.len(),
            ids@.len() == j,
            forall|m: int| 0 <= m < j ==> (#[trigger] ids@[m])@ == structs@[m].name@,
        decreases structs@.len() - j,
    {
        ids.push(owned(structs[j].name.as_str()));
        j += 1;
    }
    assert(ids@.map_values(|n: String| n@) =~= layout_names(s0));
    let mut out = structs;
    let mut k: usize = 0;
    while k < refs.len()
        invariant
            refs_ok(units@, refs@),
            forall|k: int| 0 <= k < flat_items(units@).len() ==> fields_fit(#[trigger] flat_items(units@)[k]),
            items == flat_items(units@),
            nv == names_view(named@),
            s0 == layouts_view(structs@),
            ids@.map_values(|n: String| n@) == layout_names(s0),
            0 <= k <= refs@.len(),
            layout_pass(items.take(k as int), nv, s0) == Ok::<_, DeclFailure>(layouts_view(out@)),
            layout_names(layouts_view(out@)) == layout_names(s0),
        decreases refs@.len() - k,
    {
        let p = refs[k];
        let item = &units[p.0].items[p.1];
        proof {
            assert(refers(units@, refs@[k as int], items[k as int]));
            lemma_step(items, k as int);
            assert(fields_fit(items[k as int]));
        }
        match &item.kind {
            StmtKind::Struct(d) => {
                let fields = match resolve_fields(&d.fields, named) {
                    Ok(fs) => fs,
                    Err(e) => {
                        proof {
                            assert(match resolved_fields(d.fields@, nv) {
                                Err(f) => layout_pass(items.take(k + 1), nv, s0) == Err::<
                                    Seq<LayoutView>,
                                    DeclFailure,
                                >(f),
                                _ => false,
                            });
                            lemma_layout_stop(items, nv, s0, k + 1);
                        }
                        return Err(e);
                    },
                };
                match find_first(&ids, d.name.as_str()) {
                    Some(i) => {
                        proof {
                            assert(layout_names(layouts_view(out@)).len() == out@.len());
                            lemma_first_named_found(ids@.map_values(|n: String| n@), d.name@);
                        }
                        let ghost prev = layouts_view(out@);
                        let ghost fv = names_view(fields@);
                        proof {
                            crate::compiler::types::lemma_size_of_few_fields(field_types_of(fields@));
                            assert(crate::compiler::types::field_types(fields@) =~= field_types_of(fields@));
                        }
                        let l = layout(d.name.as_str(), fields);
                        proof {
                            assert(layout_view(l).fields =~= computed_layout(d.name@, fv).fields) by {
                                assert(field_types_of(fields@) =~= fv.map_values(|f: (Seq<char>, Ty)| f.1));
                            }
                            assert(layout_view(l) == computed_layout(d.name@, fv)) by {
                                assert(field_types_of(fields@) =~= fv.map_values(|f: (Seq<char>, Ty)| f.1));
                            }
                        }
                        out.set(i, l);
                        proof {
                            assert(layouts_view(out@) =~= prev.update(i as int, computed_layout(d.name@, fv)));
                            assert(layout_names(layouts_view(out@)) =~= layout_names(prev));
                        }
                    },
                    None => {
                        proof {
                            lemma_first_named_skip(
                                ids@.map_values(|n: String| n@),
                                d.name@,
                                ids@.len() as int,
                            );
                        }
                    },
                }
            },
            _ => {},
        }
        k += 1;
    }
    assert(items.take(k as int) =~= items);
    Ok(out)
}

pub open spec fn field_types_of(fields: Seq<(String, Ty)>) -> Seq<Ty> {
    fields.map_values(|f: (String, Ty)| f.1)
}

/// Pass B1: resolve and check the members of every union declaration.
fn resolve_unions(
    units: &Vec<Program>,
    refs: &Vec<(usize, usize)>,
    named: &Vec<(String, Ty)>,
    unions: Vec<UnionInfo>,
) -> (r: CResult<Vec<UnionInfo>>)
    requires
        refs_ok(units@, refs@),
    ensures
        match union_member_pass(flat_items(units@), names_view(named@), unions_view(unions@)) {
            Ok(v) => r matches Ok(out) && unions_view(out@) == v,
            Err(f) => r matches Err(e) && fails_with(e, f),
        },
{
    let ghost items = flat_items(units@);
    let ghost nv = names_view(named@);
    let ghost u0 = unions_view(unions@);
    let mut ids: Vec<String> = Vec::new();
    let mut j: usize = 0;
    while j < unions.len()
        invariant
            0 <= j <= unions@.len(),
            ids@.len() == j,
            forall|m: int| 0 <= m < j ==> (#[trigger] ids@[m])@ == unions@[m].name@,
        decreases unions@.len() - j,
    {
        ids.push(owned(unions[j].name.as_str()));
        j += 1;
    }
    assert(ids@.map_values(|n: String| n@) =~= union_names(u0));
    let mut out = unions;
    let mut k: usize = 0;
    while k < refs.len()
        invariant
            refs_ok(units@, refs@),
            items == flat_items(units@),
            nv == names_view(named@),
            u0 == unions_view(unions@),
            ids@.map_values(|n: String| n@) == union_names(u0),
            0 <= k <= refs@.len(),
            union_member_pass(items.take(k as int), nv, u0) == Ok::<_, DeclFailure>(unions_view(out@)),
            union_names(unions_view(out@)) == union_names(u0),
        decreases refs@.len() - k,
    {
        let p = refs[k];
        let item = &units[p.0].items[p.1];
        proof {
            assert(refers(units@, refs@[k as int], items[k as int]));
            lemma_step(items, k as int);
        }
        match &item.kind {
            StmtKind::Union(d) => {
                if d.types.len() == 0 {
                    let mut m = owned("union '");
                    push_str(&mut m, d.name.as_str());
                    push_str(&mut m, "' must have at least one member type");
                    proof {
                        lemma_union_stop(items, nv, u0, k + 1);
                    }
                    return Err(CompileError::new(m, item.span, owned("E346")));
                }
                let members = match resolve_union_members(&d.types, named, d.name.as_str(), item.span) {
                    Ok(ms) => ms,
                    Err(e) => {
                        proof {
                            assert(match union_members(d.types@, nv, d.name@, item.span) {
                                Err(f) => union_member_pass(items.take(k + 1), nv, u0) == Err::<
                                    Seq<(Seq<char>, Seq<Ty>)>,
                                    DeclFailure,
                                >(f),
                                _ => false,
                            });
                            lemma_union_stop(items, nv, u0, k + 1);
                        }
                        return Err(e);
                    },
                };
                match find_first(&ids, d.name.as_str()) {
                    Some(i) => {
                        let ghost prev = unions_view(out@);
                        let ghost mv = members@;
                        proof {
                            assert(union_names(unions_view(out@)).len() == out@.len());
                            lemma_first_named_found(ids@.map_values(|n: String| n@), d.name@);
                        }
                        out.set(i, UnionInfo { name: owned(d.name.as_str()), members });
                        proof {
                            assert(unions_view(out@) =~= prev.update(i as int, (d.name@, mv)));
                            assert(union_names(unions_view(out@)) =~= union_names(prev));
                        }
                    },
                    None => {
                        proof {
                            lemma_first_named_skip(
                                ids@.map_values(|n: String| n@),
                                d.name@,
                                ids@.len() as int,
                            );
                        }
                    },
                }
            },
            _ => {},
        }
        k += 1;
    }
    assert(items.take(k as int) =~= items);
    Ok(out)
}

// ---------------------------------------------------------------------------
// All declarations
// ---------------------------------------------------------------------------

/// The registered types by value.
pub struct DeclsView {
    pub structs: Seq<LayoutView>,
    pub unions: Seq<(Seq<char>, Seq<Ty>)>,
    pub enums: Seq<(Seq<char>, Seq<(Seq<char>, i64)>)>,
    pub errors: ErrorTablesView,
}

/// Every struct, union, enum and error type of a program and its modules.
pub struct TypeDecls {
    /// Struct layouts, one per declaration; a name's id is its first.
    pub structs: Vec<StructLayout>,
    /// Unions, one per declaration; a name's id is its first.
    pub unions: Vec<UnionInfo>,
    /// Enums, one per declaration; a name's id is its last.
    pub enums: Vec<EnumInfo>,
    /// The error types and their member tags.
    pub errors: ErrorTables,
}

impl TypeDecls {
    pub open spec fn view(&self) -> DeclsView {
        DeclsView {
            structs: layouts_view(self.structs@),
            unions: unions_view(self.unions@),
            enums: enums_view(self.enums@),
            errors: self.errors.view(),
        }
    }

    /// The table that type names resolve against.
    pub fn named_types(&self) -> (r: Vec<(String, Ty)>)
        ensures
            names_view(r@) == named_table(
                self.view().structs,
                self.view().unions,
                self.view().errors,
                self.view().enums,
            ),
    {
        named_types(&self.structs, &self.unions, &self.errors, &self.enums)
    }
}

/// The declaration passes over the items of all units: structs, unions and
/// enums registered, error types declared and filled, then struct fields
/// laid out and union members resolved against the names registered.
pub open spec fn declare_spec(items: Seq<Stmt>) -> Result<DeclsView, DeclFailure> {
    match enum_pass(items) {
        Err(f) => Err(f),
        Ok(enums) => match error_pass(items) {
            Err(f) => Err(f),
            Ok(errors) => {
                let s0 = struct_pass(items);
                let u0 = union_pass(items);
                let named = named_table(s0, u0, errors, enums);
                match layout_pass(items, named, s0) {
                    Err(f) => Err(f),
                    Ok(structs) => match union_member_pass(items, named, u0) {
                        Err(f) => Err(f),
                        Ok(unions) => Ok(DeclsView { structs, unions, enums, errors }),
                    },
                }
            },
        },
    }
}

/// Register every type declared in `units` (the program, then each loaded
/// module), lay out struct fields and resolve union members; the first
/// failure stops it.
pub fn declare_types(units: &Vec<Program>) -> (r: CResult<TypeDecls>)
    requires
        forall|k: int| 0 <= k < flat_items(units@).len() ==> fields_fit(#[trigger] flat_items(units@)[k]),
    ensures
        match declare_spec(flat_items(units@)) {
            Ok(v) => r matches Ok(d) && d.view() == v && d.errors.wf(),
            Err(f) => r matches Err(e) && fails_with(e, f),
        },
{
    let refs = item_refs(units);
    let structs = register_structs(units, &refs);
    let unions = register_unions(units, &refs);
    let enums = register_enums(units, &refs)?;
    let errors = register_errors(units, &refs)?;
    let named = named_types(&structs, &unions, &errors, &enums);
    let structs = lay_out_structs(units, &refs, &named, structs)?;
    let unions = resolve_unions(units, &refs, &named, unions)?;
    Ok(TypeDecls { structs, unions, enums, errors })
}

// ---------------------------------------------------------------------------
// Enum members by name, and the program's span
// ---------------------------------------------------------------------------

/// The value of the last member named `member` in `ms`.
pub open spec fn last_member(ms: Seq<(Seq<char>, i64)>, member: Seq<char>) -> Option<i64>
    decreases ms.len(),
{
    if ms.len() == 0 {
        None
    } else if ms.last().0 == member {
        Some(ms.last().1)
    } else {
        last_member(ms.drop_last(), member)
    }
}

/// A bare enum member name: the enum id and value of its last registration.
pub open spec fn enum_const_spec(enums: Seq<(Seq<char>, Seq<(Seq<char>, i64)>)>, member: Seq<char>) -> Option<
    (u32, i64),
>
    decreases enums.len(),
{
    if enums.len() == 0 {
        None
    } else {
        match last_member(enums.last().1, member) {
            Some(v) => Some(((enums.len() - 1) as u32, v)),
            None => enum_const_spec(enums.drop_last(), member),
        }
    }
}

impl TypeDecls {
    /// The enum and value a bare member name stands for.
    pub fn enum_const(&self, member: &str) -> (r: Option<(u32, i64)>)
        ensures
            r == enum_const_spec(self.view().enums, member@),
    {
        let ghost ev = self.view().enums;
        let mut n: usize = self.enums.len();
        assert(ev.take(n as int) =~= ev);
        while n > 0
            invariant
                ev == enums_view(self.enums@),
                0 <= n <= self.enums@.len(),
                enum_const_spec(ev, member@) == enum_const_spec(ev.take(n as int), member@),
            decreases n,
        {
            let e = &self.enums[n - 1];
            let ghost ms = members_view(e.members@);
            proof {
                assert(ev.take(n as int).last() == enum_view(self.enums@[n - 1]));
                assert(ev.take(n as int).drop_last() =~= ev.take(n - 1));
            }
            let mut m: usize = e.members.len();
            assert(ms.take(m as int) =~= ms);
            while m > 0
                invariant
                    ms == members_view(e.members@),
                    0 < n <= self.enums@.len(),
                    *e == self.enums@[n - 1],
                    ev == enums_view(self.enums@),
                    ev.take(n as int).last() == enum_view(self.enums@[n - 1]),
                    enum_const_spec(ev, member@) == enum_const_spec(ev.take(n as int), member@),
                    0 <= m <= e.members@.len(),
                    last_member(ms, member@) == last_member(ms.take(m as int), member@),
                decreases m,
            {
                proof {
                    assert(ms.take(m as int).last() == (e.members@[m - 1].0@, e.members@[m - 1].1));
                    assert(ms.take(m as int).drop_last() =~= ms.take(m - 1));
                }
                if str_eq(e.members[m - 1].0.as_str(), member) {
                    return Some(((n - 1) as u32, e.members[m - 1].1));
                }
                m -= 1;
            }
            proof {
                assert(ms.take(0) =~= Seq::<(Seq<char>, i64)>::empty());
            }
            n -= 1;
        }
        proof {
            assert(ev.take(0) =~= Seq::<(Seq<char>, Seq<(Seq<char>, i64)>)>::empty());
        }
        None
    }
}

/// The span of the first function in `items` (named `main` when
/// `main_only`).
pub open spec fn first_fn_span(items: Seq<Stmt>, main_only: bool) -> Option<Span>
    decreases items.len(),
{
    if items.len() == 0 {
        None
    } else {
        match items[0].kind {
            StmtKind::Function(f) => if !main_only || f.name@ == "main"@ {
                Some(items[0].span)
            } else {
                first_fn_span(items.drop_first(), main_only)
            },
            _ => first_fn_span(items.drop_first(), main_only),
        }
    }
}

/// The span a program's diagnostics fall back to: its `main` function, else
/// its first function, else its first item, else the default span.
pub open spec fn program_span_spec(items: Seq<Stmt>) -> Span {
    match first_fn_span(items, true) {
        Some(s) => s,
        None => match first_fn_span(items, false) {
            Some(s) => s,
            None => if items.len() > 0 {
                items[0].span
            } else {
                span_at(0, 0, 1, 1)
            },
        },
    }
}

fn find_fn_span(items: &Vec<Stmt>, main_only: bool) -> (r: Option<Span>)
    ensures
        r == first_fn_span(items@, main_only),
{
    let mut i: usize = 0;
    assert(items@.skip(0) =~= items@);
    while i < items.len()
        invariant
            0 <= i <= items@.len(),
            first_fn_span(items@, main_only) == first_fn_span(items@.skip(i as int), main_only),
        decreases items@.len() - i,
    {
        proof {
            assert(items@.skip(i as int)[0] == items@[i as int]);
            assert(items@.skip(i as int).drop_first() =~= items@.skip(i + 1));
        }
        match &items[i].kind {
            StmtKind::Function(f) => {
                if !main_only || str_eq(f.name.as_str(), "main") {
                    return Some(items[i].span);
                }
            },
            _ => {},
        }
        i += 1;
    }
    None
}

/// The span diagnostics about `program` as a whole point at.
pub fn program_span(program: &Program) -> (r: Span)
    ensures
        r == program_span_spec(program.items@),
{
    match find_fn_span(&program.items, true) {
        Some(s) => s,
        None => match find_fn_span(&program.items, false) {
            Some(s) => s,
            None => if program.items.len() > 0 {
                program.items[0].span
            } else {
                Span::default()
            },
        },
    }
}

// ---------------------------------------------------------------------------
// Laws
// ---------------------------------------------------------------------------

/// Union member types that a tag can dispatch on: each fits in a pointer
/// and no two are the same type.
pub open spec fn members_checked(ms: Seq<Ty>) -> bool {
    &&& forall|i: int| 0 <= i < ms.len() ==> elem_size_of(#[trigger] ms[i]) <= 8
    &&& forall|i: int, j: int| 0 <= i < j < ms.len() ==> #[trigger] ms[i] != #[trigger] ms[j]
}

proof fn lemma_union_members_checked(ts: Seq<Type>, named: Seq<(Seq<char>, Ty)>, name: Seq<char>, span: Span)
    ensures
        union_members(ts, named, name, span) matches Ok(ms) ==> members_checked(ms),
    decreases ts.len(),
{
    if ts.len() > 0 {
        lemma_union_members_checked(ts.drop_last(), named, name, span);
        match union_members(ts, named, name, span) {
            Ok(ms) => {
                let prev = union_members(ts.drop_last(), named, name, span)->Ok_0;
                assert(ms == prev.push(ms.last()));
                assert forall|i: int, j: int| 0 <= i < j < ms.len() implies #[trigger] ms[i] != #[trigger] ms[j] by {
                    if j == ms.len() - 1 {
                        assert(prev[i] == ms[i]);
                        assert(prev.contains(prev[i]));
                    } else {
                        assert(prev[i] == ms[i] && prev[j] == ms[j]);
                    }
                }
                assert forall|i: int| 0 <= i < ms.len() implies elem_size_of(#[trigger] ms[i]) <= 8 by {
                    if i < ms.len() - 1 {
                        assert(prev[i] == ms[i]);
                    }
                }
            },
            Err(_) => {},
        }
    }
}

proof fn lemma_union_pass_empty(items: Seq<Stmt>)
    ensures
        forall|i: int| 0 <= i < union_pass(items).len() ==> (#[trigger] union_pass(items)[i]).1.len() == 0,
    decreases items.len(),
{
    if items.len() > 0 {
        lemma_union_pass_empty(items.drop_last());
        let prev = union_pass(items.drop_last());
        let cur = union_pass(items);
        assert forall|i: int| 0 <= i < cur.len() implies (#[trigger] cur[i]).1.len() == 0 by {
            if i < prev.len() {
                assert(cur[i] == prev[i]);
            }
        }
    }
}

proof fn lemma_union_member_pass_checked(
    items: Seq<Stmt>,
    named: Seq<(Seq<char>, Ty)>,
    u0: Seq<(Seq<char>, Seq<Ty>)>,
)
    requires
        forall|i: int| 0 <= i < u0.len() ==> members_checked(#[trigger] u0[i].1),
    ensures
        union_member_pass(items, named, u0) matches Ok(us) ==> forall|i: int|
            0 <= i < us.len() ==> members_checked(#[trigger] us[i].1),
    decreases items.len(),
{
    if items.len() > 0 {
        lemma_union_member_pass_checked(items.drop_last(), named, u0);
        match items.last().kind {
            StmtKind::Union(d) => {
                lemma_union_members_checked(d.types@, named, d.name@, items.last().span);
                match union_member_pass(items, named, u0) {
                    Ok(us) => {
                        let prev = union_member_pass(items.drop_last(), named, u0)->Ok_0;
                        let ms = union_members(d.types@, named, d.name@, items.last().span)->Ok_0;
                        match first_named(union_names(prev), d.name@) {
                            Some(idx) => {
                                lemma_first_named_found(union_names(prev), d.name@);
                                assert(us == prev.update(idx, (d.name@, ms)));
                                assert forall|i: int| 0 <= i < us.len() implies members_checked(
                                    #[trigger] us[i].1,
                                ) by {
                                    if i != idx {
                                        assert(us[i] == prev[i]);
                                    }
                                }
                            },
                            None => {},
                        }
                    },
                    Err(_) => {},
                }
            },
            _ => {},
        }
    }
}

/// The member types of every registered union fit in a pointer and are
/// pairwise distinct, so a union's tag can name its member by index.
pub proof fn lemma_union_members_distinct(items: Seq<Stmt>)
    requires
        declare_spec(items) is Ok,
    ensures
        forall|i: int|
            0 <= i < declare_spec(items)->Ok_0.unions.len() ==> members_checked(
                #[trigger] declare_spec(items)->Ok_0.unions[i].1,
            ),
{
    lemma_union_pass_empty(items);
    let u0 = union_pass(items);
    assert forall|i: int| 0 <= i < u0.len() implies members_checked(#[trigger] u0[i].1) by {
        assert(u0[i].1.len() == 0);
    }
    let enums = enum_pass(items)->Ok_0;
    let errors = error_pass(items)->Ok_0;
    let named = named_table(struct_pass(items), u0, errors, enums);
    lemma_union_member_pass_checked(items, named, u0);
}

/// Every struct declaration keeps a layout under its own name, in order:
/// the layouts are the declared structs, each laid out at the id of its
/// name.
pub proof fn lemma_struct_names_kept(items: Seq<Stmt>)
    requires
        declare_spec(items) is Ok,
    ensures
        layout_names(declare_spec(items)->Ok_0.structs) == layout_names(struct_pass(items)),
{
    let enums = enum_pass(items)->Ok_0;
    let errors = error_pass(items)->Ok_0;
    let s0 = struct_pass(items);
    let named = named_table(s0, union_pass(items), errors, enums);
    lemma_layout_pass_names(items, named, s0);
}

proof fn lemma_layout_pass_names(items: Seq<Stmt>, named: Seq<(Seq<char>, Ty)>, s0: Seq<LayoutView>)
    ensures
        layout_pass(items, named, s0) matches Ok(s) ==> layout_names(s) == layout_names(s0),
    decreases items.len(),
{
    if items.len() > 0 {
        lemma_layout_pass_names(items.drop_last(), named, s0);
        match layout_pass(items.drop_last(), named, s0) {
            Ok(prev) => match items.last().kind {
                StmtKind::Struct(d) => match resolved_fields(d.fields@, named) {
                    Ok(fs) => match first_named(layout_names(prev), d.name@) {
                        Some(i) => {
                            lemma_first_named_found(layout_names(prev), d.name@);
                            assert(layout_names(prev.update(i, computed_layout(d.name@, fs)))
                                =~= layout_names(prev));
                        },
                        None => {},
                    },
                    Err(_) => {},
                },
                _ => {},
            },
            Err(_) => {},
        }
    }
}

} // verus!
