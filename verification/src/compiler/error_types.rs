//! The compiler's table of `error` types: their ids, their members with
//! interned tags (copied from an injected error type first), and lookups of
//! error types and members by the paths programs write.

use vstd::prelude::*;
use crate::compiler::errors::{is_new_error, CompileError};
use crate::compiler::require_sites::last_dot_index;
use crate::compiler::types::{CResult, Ty};
use crate::diagnostics::span::span_at;
use crate::diagnostics::Span;
use crate::interpreter::name_map::NameMap;
use crate::interpreter::registry::{first_type_tag, last_dot, tag_in};
use crate::parser::ast::{ErrorDecl, Primitive, Type, TypeKind};
use crate::text::{chars_of, owned, push_str, slice_chars, str_eq, string_of_chars};
use vstd::wrapping::u32_specs::wrapping_add as wrapping_add_u32;

verus! {

/// An error type: its name and its members with their tags.
#[derive(Debug)]
pub struct ErrorInfo {
    pub name: String,
    pub members: Vec<(String, u32)>,
}

/// The error tables by value.
pub struct ErrorTablesView {
    /// Interned member keys to tags.
    pub ids: Map<Seq<char>, u32>,
    /// How many keys are interned.
    pub count: u32,
    /// Error type name to id.
    pub type_ids: Map<Seq<char>, u32>,
    /// Error types by id, with their members.
    pub types: Seq<(Seq<char>, Seq<(Seq<char>, u32)>)>,
}

/// The part of `path` after its last `.` (all of it without one).
pub open spec fn last_segment(path: Seq<char>) -> Seq<char> {
    match last_dot(path) {
        Some(j) => path.skip(j + 1),
        None => path,
    }
}

/// The key a member of error type `name` is interned under: the member
/// itself for the built-in `Error` type, else `Name.MEMBER`.
pub open spec fn member_key(name: Seq<char>, member: Seq<char>) -> Seq<char> {
    if name == "Error"@ {
        member
    } else {
        name + "."@ + member
    }
}

/// The id of the error type `path` names: the path itself, else its last
/// segment.
pub open spec fn lookup_spec(v: ErrorTablesView, path: Seq<char>) -> Option<u32> {
    if v.type_ids.contains_key(path) {
        Some(v.type_ids[path])
    } else if v.type_ids.contains_key(last_segment(path)) {
        Some(v.type_ids[last_segment(path)])
    } else {
        None
    }
}

/// The tag of the member a type case names: `error.MEMBER` by the interned
/// key as written, then in the error types in order; `Type.MEMBER` (or a
/// path whose whole text is an error type) in that error type.
pub open spec fn member_tag_spec(v: ErrorTablesView, t: Type) -> Option<u32> {
    match t.kind {
        TypeKind::Named(path) => {
            let p = path@;
            if p.len() >= 6 && p.take(6) == "error."@ {
                let member = p.skip(6);
                if v.ids.contains_key(member) {
                    Some(v.ids[member])
                } else {
                    first_type_tag(v.types, member)
                }
            } else {
                match last_dot(p) {
                    Some(j) => {
                        let owner = p.take(j);
                        let id = if v.type_ids.contains_key(owner) {
                            Some(v.type_ids[owner])
                        } else if v.type_ids.contains_key(p) {
                            Some(v.type_ids[p])
                        } else {
                            None
                        };
                        match id {
                            Some(i) => tag_in(v.types[i as int].1, p.skip(j + 1)),
                            None => None,
                        }
                    },
                    None => None,
                }
            }
        },
        _ => None,
    }
}

/// Whether `acc` already has a member named `m`.
pub open spec fn has_member(acc: Seq<(Seq<char>, u32)>, m: Seq<char>) -> bool {
    exists|j: int| 0 <= j < acc.len() && (#[trigger] acc[j]).0 == m
}

/// Interning the keys of members `ms` of error type `name` in order,
/// appending each with its tag to `acc`; stops at the first member already
/// in `acc` (after interning its key), reporting it.
pub open spec fn fill_members(
    ids: Map<Seq<char>, u32>,
    count: u32,
    acc: Seq<(Seq<char>, u32)>,
    name: Seq<char>,
    ms: Seq<String>,
) -> (Map<Seq<char>, u32>, u32, Seq<(Seq<char>, u32)>, Option<Seq<char>>)
    decreases ms.len(),
{
    if ms.len() == 0 {
        (ids, count, acc, None)
    } else {
        let m = ms[0]@;
        let key = member_key(name, m);
        let t = if ids.contains_key(key) {
            ids[key]
        } else {
            wrapping_add_u32(count, 1)
        };
        let ids1 = if ids.contains_key(key) {
            ids
        } else {
            ids.insert(key, t)
        };
        let count1 = if ids.contains_key(key) {
            count
        } else {
            t
        };
        if has_member(acc, m) {
            (ids1, count1, acc, Some(m))
        } else {
            fill_members(ids1, count1, acc.push((m, t)), name, ms.drop_first())
        }
    }
}

/// Why filling an error type's members failed: a message and a code.
pub type FillFailure = (Seq<char>, Seq<char>);

pub open spec fn unknown_type(path: Seq<char>) -> FillFailure {
    ("unknown error type '"@ + path + "'"@, "E302"@)
}

pub open spec fn no_members(name: Seq<char>) -> FillFailure {
    ("error type '"@ + name + "' has no members to inject (declare it before dependents)"@, "E308"@)
}

pub open spec fn duplicate_member(name: Seq<char>, m: Seq<char>) -> FillFailure {
    ("error type '"@ + name + "' has duplicate member '"@ + m + "'"@, "E308"@)
}

/// Filling the members of declared error type `d`: nothing when it already
/// has members; else the injected type's members (which must be filled)
/// first, then `d`'s own, each with the tag of its key.
pub open spec fn fill_spec(v: ErrorTablesView, d: ErrorDecl) -> (ErrorTablesView, Option<FillFailure>) {
    if !v.type_ids.contains_key(d.name@) {
        (v, Some(unknown_type(d.name@)))
    } else {
        let id = v.type_ids[d.name@] as int;
        if v.types[id].1.len() > 0 {
            (v, None)
        } else {
            let base: Result<Seq<(Seq<char>, u32)>, FillFailure> = match d.inject {
                Some(inj) => match lookup_spec(v, inj@) {
                    None => Err(unknown_type(inj@)),
                    Some(iid) => if v.types[iid as int].1.len() == 0 {
                        Err(no_members(v.types[iid as int].0))
                    } else {
                        Ok(v.types[iid as int].1)
                    },
                },
                None => Ok(Seq::empty()),
            };
            match base {
                Err(f) => (v, Some(f)),
                Ok(acc) => finish_fill(v, id, fill_members(v.ids, v.count, acc, d.name@, d.members@), d.name@),
            }
        }
    }
}

/// The tables after the members of error type `id` (named `name`) were
/// interned as `r`: the interned keys always stay; the members are set only
/// when no member was repeated.
pub open spec fn finish_fill(
    v: ErrorTablesView,
    id: int,
    r: (Map<Seq<char>, u32>, u32, Seq<(Seq<char>, u32)>, Option<Seq<char>>),
    name: Seq<char>,
) -> (ErrorTablesView, Option<FillFailure>) {
    let v1 = ErrorTablesView { ids: r.0, count: r.1, ..v };
    match r.3 {
        Some(m) => (v1, Some(duplicate_member(name, m))),
        None => (ErrorTablesView { types: v.types.update(id, (v.types[id].0, r.2)), ..v1 }, None),
    }
}

/// `r` is outcome `o` of a fill.
pub open spec fn fill_outcome(o: Option<FillFailure>, r: CResult<()>) -> bool {
    match o {
        None => r is Ok,
        Some(f) => r matches Err(e) && is_new_error(*e.diagnostic, f.0, span_at(0, 0, 1, 1), f.1),
    }
}

/// The part of `path` after its last `.`.
pub(crate) fn last_segment_text(path: &str) -> (r: String)
    ensures
        r@ == last_segment(path@),
{
    let cs = chars_of(path);
    match last_dot_index(&cs) {
        Some(j) => {
            assert(j < cs.len());
            let tail = slice_chars(&cs, j + 1, cs.len());
            assert(tail@ =~= path@.skip(j + 1));
            string_of_chars(&tail)
        },
        None => owned(path),
    }
}

fn quoted(prefix: &str, s: &str, suffix: &str) -> (r: String)
    ensures
        r@ == prefix@ + s@ + suffix@,
{
    let mut m = owned(prefix);
    push_str(&mut m, s);
    push_str(&mut m, suffix);
    m
}

/// The compiler's error tables.
pub struct ErrorTables {
    ids: NameMap<u32>,
    count: u32,
    type_ids: NameMap<u32>,
    types: Vec<ErrorInfo>,
}

impl ErrorTables {
    pub closed spec fn view(&self) -> ErrorTablesView {
        ErrorTablesView {
            ids: self.ids@,
            count: self.count,
            type_ids: self.type_ids@,
            types: self.types@.map_values(
                |e: ErrorInfo| (e.name@, e.members@.map_values(|m: (String, u32)| (m.0@, m.1))),
            ),
        }
    }

    /// Every id names a declared error type.
    pub open spec fn wf(&self) -> bool {
        forall|k: Seq<char>| #[trigger] self.view().type_ids.contains_key(k) ==> (self.view().type_ids[k] as int)
            < self.view().types.len()
    }

    pub fn new() -> (r: Self)
        ensures
            r.wf(),
            r.view().ids == Map::<Seq<char>, u32>::empty(),
            r.view().count == 0,
            r.view().type_ids == Map::<Seq<char>, u32>::empty(),
            r.view().types == Seq::<(Seq<char>, Seq<(Seq<char>, u32)>)>::empty(),
    {
        let r = ErrorTables { ids: NameMap::new(), count: 0, type_ids: NameMap::new(), types: Vec::new() };
        assert(r.view().types =~= Seq::<(Seq<char>, Seq<(Seq<char>, u32)>)>::empty());
        r
    }

    /// The tag of member key `key`, interning it as the next tag when new.
    pub fn error_tag(&mut self, key: &str) -> (r: u32)
        requires
            old(self).wf(),
        ensures
            final(self).wf(),
            final(self).view().type_ids == old(self).view().type_ids,
            final(self).view().types == old(self).view().types,
            old(self).view().ids.contains_key(key@) ==> r == old(self).view().ids[key@] && final(self).view().ids
                == old(self).view().ids && final(self).view().count == old(self).view().count,
            !old(self).view().ids.contains_key(key@) ==> r == wrapping_add_u32(old(self).view().count, 1)
                && final(self).view().ids == old(self).view().ids.insert(key@, r) && final(self).view().count == r,
    {
        if let Some(t) = self.ids.get(key) {
            return *t;
        }
        let next = self.count.wrapping_add(1);
        self.ids.insert(owned(key), next);
        self.count = next;
        proof {
            assert(self.view().type_ids == old(self).view().type_ids);
            assert(self.view().types == old(self).view().types);
            assert forall|k: Seq<char>| #[trigger] self.view().type_ids.contains_key(k) implies (
            self.view().type_ids[k] as int) < self.view().types.len() by {
                assert(old(self).view().type_ids.contains_key(k));
            }
        }
        next
    }

    /// The id of the error type `path` names (the path, else its last
    /// segment); `E302` when none does.
    pub fn lookup_error_type(&self, path: &str) -> (r: CResult<u32>)
        ensures
            match lookup_spec(self.view(), path@) {
                Some(id) => r == Ok::<u32, CompileError>(id),
                None => r matches Err(e) && is_new_error(*e.diagnostic, unknown_type(path@).0, span_at(0, 0, 1, 1), unknown_type(path@).1),
            },
    {
        if let Some(id) = self.type_ids.get(path) {
            return Ok(*id);
        }
        let name = last_segment_text(path);
        match self.type_ids.get(name.as_str()) {
            Some(id) => Ok(*id),
            None => Err(CompileError::new(quoted("unknown error type '", path, "'"), Span::default(), owned("E302"))),
        }
    }

    /// `Ok` when error type `id` has members (it has been filled).
    pub fn ensure_error_filled(&self, id: u32) -> (r: CResult<()>)
        requires
            (id as int) < self.view().types.len(),
        ensures
            self.view().types[id as int].1.len() > 0 ==> r is Ok,
            self.view().types[id as int].1.len() == 0 ==> (r matches Err(e) && is_new_error(
                *e.diagnostic,
                no_members(self.view().types[id as int].0).0,
                span_at(0, 0, 1, 1),
                no_members(self.view().types[id as int].0).1,
            )),
    {
        if self.types[id as usize].members.len() > 0 {
            return Ok(());
        }
        Err(CompileError::new(
            quoted("error type '", self.types[id as usize].name.as_str(), "' has no members to inject (declare it before dependents)"),
            Span::default(),
            owned("E308"),
        ))
    }

    /// Whether `path` names an error type: by its last segment or whole.
    pub fn is_error_type_path(&self, path: &str) -> (r: bool)
        ensures
            r == (self.view().type_ids.contains_key(last_segment(path@)) || self.view().type_ids.contains_key(path@)),
    {
        let name = last_segment_text(path);
        self.type_ids.contains_key(name.as_str()) || self.type_ids.contains_key(path)
    }

    /// Whether a source type (resolved to `ty`) is an error type.
    pub fn type_is_error(&self, ast: &Type, ty: Ty) -> (r: bool)
        ensures
            r == (ty == Ty::Error || match ast.kind {
                TypeKind::Named(n) => self.view().type_ids.contains_key(last_segment(n@))
                    || self.view().type_ids.contains_key(n@),
                TypeKind::Primitive(Primitive::Error) => true,
                _ => false,
            }),
    {
        if ty == Ty::Error {
            return true;
        }
        match &ast.kind {
            TypeKind::Named(n) => self.is_error_type_path(n.as_str()),
            TypeKind::Primitive(Primitive::Error) => true,
            _ => false,
        }
    }

    /// Whether `members` already has one named `m`.
    fn has_member_named(members: &Vec<(String, u32)>, m: &str) -> (r: bool)
        ensures
            r == has_member(members@.map_values(|x: (String, u32)| (x.0@, x.1)), m@),
    {
        let ghost view = members@.map_values(|x: (String, u32)| (x.0@, x.1));
        let mut j: usize = 0;
        while j < members.len()
            invariant
                0 <= j <= members@.len(),
                view == members@.map_values(|x: (String, u32)| (x.0@, x.1)),
                forall|k: int| 0 <= k < j ==> (#[trigger] view[k]).0 != m@,
            decreases members@.len() - j,
        {
            assert(view[j as int] == (members@[j as int].0@, members@[j as int].1));
            if str_eq(members[j].0.as_str(), m) {
                assert(view[j as int].0 == m@);
                return true;
            }
            j += 1;
        }
        false
    }

    /// Fill the members of declared error type `d` (see `fill_spec`).
    pub fn fill_error_type(&mut self, d: &ErrorDecl) -> (r: CResult<()>)
        requires
            old(self).wf(),
        ensures
            final(self).wf(),
            final(self).view() == fill_spec(old(self).view(), *d).0,
            fill_outcome(fill_spec(old(self).view(), *d).1, r),
    {
        let id: u32 = match self.type_ids.get(d.name.as_str()) {
            Some(i) => *i,
            None => {
                return Err(CompileError::new(quoted("unknown error type '", d.name.as_str(), "'"), Span::default(), owned("E302")));
            },
        };
        assert(self.view().type_ids.contains_key(d.name@));
        if self.types[id as usize].members.len() > 0 {
            return Ok(());
        }
        let ghost v0 = self.view();
        let mut members: Vec<(String, u32)> = Vec::new();
        match &d.inject {
            Some(inject) => {
                let inj_id = match self.lookup_error_type(inject.as_str()) {
                    Ok(i) => i,
                    Err(e) => {
                        return Err(e);
                    },
                };
                proof {
                    if self.view().type_ids.contains_key(inject@) {
                        assert(self.view().type_ids.contains_key(inject@));
                    } else {
                        assert(self.view().type_ids.contains_key(last_segment(inject@)));
                    }
                }
                match self.ensure_error_filled(inj_id) {
                    Ok(()) => {},
                    Err(e) => {
                        return Err(e);
                    },
                }
                let src = &self.types[inj_id as usize].members;
                let ghost target = v0.types[inj_id as int].1;
                assert(target == src@.map_values(|x: (String, u32)| (x.0@, x.1)));
                let mut k: usize = 0;
                while k < src.len()
                    invariant
                        0 <= k <= src@.len(),
                        target == src@.map_values(|x: (String, u32)| (x.0@, x.1)),
                        members@.map_values(|x: (String, u32)| (x.0@, x.1)) == target.take(k as int),
                    decreases src@.len() - k,
                {
                    assert(target[k as int] == (src@[k as int].0@, src@[k as int].1));
                    let ghost prev = members@;
                    let nm = src[k].0.clone();
                    assert(nm@ == src@[k as int].0@);
                    members.push((nm, src[k].1));
                    assert(members@ == prev.push((nm, src@[k as int].1)));
                    assert(members@.map_values(|x: (String, u32)| (x.0@, x.1)) =~= prev.map_values(
                        |x: (String, u32)| (x.0@, x.1),
                    ).push(target[k as int]));
                    assert(target.take(k + 1) =~= target.take(k as int).push(target[k as int]));
                    k += 1;
                }
                assert(target.take(src@.len() as int) =~= target);
            },
            None => {
                assert(members@.map_values(|x: (String, u32)| (x.0@, x.1)) =~= Seq::<(Seq<char>, u32)>::empty());
            },
        }
        let ghost acc0 = members@.map_values(|x: (String, u32)| (x.0@, x.1));
        let ghost all = fill_members(v0.ids, v0.count, acc0, d.name@, d.members@);
        assert(v0 == old(self).view());
        assert(fill_spec(old(self).view(), *d) == finish_fill(v0, id as int, all, d.name@));
        let is_builtin = str_eq(d.name.as_str(), "Error");
        proof {
            reveal_strlit("Error");
        }
        let mut i: usize = 0;
        assert(d.members@.skip(0) =~= d.members@);
        while i < d.members.len()
            invariant
                0 <= i <= d.members@.len(),
                is_builtin == (d.name@ == "Error"@),
                self.wf(),
                self.view().type_ids == v0.type_ids,
                self.view().types == v0.types,
                v0 == old(self).view(),
                fill_spec(old(self).view(), *d) == finish_fill(v0, id as int, all, d.name@),
                (id as int) < v0.types.len(),
                all == fill_members(v0.ids, v0.count, acc0, d.name@, d.members@),
                all == fill_members(
                    self.view().ids,
                    self.view().count,
                    members@.map_values(|x: (String, u32)| (x.0@, x.1)),
                    d.name@,
                    d.members@.skip(i as int),
                ),
            decreases d.members@.len() - i,
        {
            let ghost before = self.view();
            let ghost acc = members@.map_values(|x: (String, u32)| (x.0@, x.1));
            let ghost sk = d.members@.skip(i as int);
            assert(sk[0] == d.members@[i as int]);
            assert(sk.drop_first() =~= d.members@.skip(i + 1));
            let m = &d.members[i];
            let key = if is_builtin {
                m.clone()
            } else {
                quoted(d.name.as_str(), ".", m.as_str())
            };
            assert(key@ == member_key(d.name@, m@));
            let tag = self.error_tag(key.as_str());
            if Self::has_member_named(&members, m.as_str()) {
                assert(all == (self.view().ids, self.view().count, acc, Some(m@)));
                return Err(CompileError::new(
                    {
                        let mut t = quoted("error type '", d.name.as_str(), "' has duplicate member '");
                        push_str(&mut t, m.as_str());
                        push_str(&mut t, "'");
                        t
                    },
                    Span::default(),
                    owned("E308"),
                ));
            }
            members.push((m.clone(), tag));
            assert(members@.map_values(|x: (String, u32)| (x.0@, x.1)) =~= acc.push((m@, tag)));
            i += 1;
        }
        assert(d.members@.skip(d.members@.len() as int) =~= Seq::<String>::empty());
        let ghost acc_final = members@.map_values(|x: (String, u32)| (x.0@, x.1));
        let name = self.types[id as usize].name.clone();
        self.types.set(id as usize, ErrorInfo { name, members });
        proof {
            assert(self.view().types =~= v0.types.update(id as int, (v0.types[id as int].0, acc_final)));
            assert forall|k: Seq<char>| #[trigger] self.view().type_ids.contains_key(k) implies (
            self.view().type_ids[k] as int) < self.view().types.len() by {
                assert(v0.type_ids.contains_key(k));
            }
        }
        Ok(())
    }

    /// The tag of the member that type case `ty` names (see `member_tag_spec`).
    pub fn error_member_tag_from_type(&self, ty: &Type) -> (r: Option<u32>)
        requires
            self.wf(),
        ensures
            r == member_tag_spec(self.view(), *ty),
    {
        let path = match &ty.kind {
            TypeKind::Named(p) => p,
            _ => {
                return None;
            },
        };
        let cs = chars_of(path.as_str());
        let ghost p = path@;
        proof {
            reveal_strlit("error.");
        }
        let is_error_form = cs.len() >= 6 && cs[0] == 'e' && cs[1] == 'r' && cs[2] == 'r' && cs[3] == 'o' && cs[4] == 'r'
            && cs[5] == '.';
        proof {
            let lit = "error."@;
            assert(lit.len() == 6 && lit[0] == 'e' && lit[1] == 'r' && lit[2] == 'r' && lit[3] == 'o' && lit[4] == 'r'
                && lit[5] == '.');
            if p.len() >= 6 {
                if p.take(6) == lit {
                    assert(p.take(6)[0] == p[0] && p.take(6)[1] == p[1] && p.take(6)[2] == p[2]);
                    assert(p.take(6)[3] == p[3] && p.take(6)[4] == p[4] && p.take(6)[5] == p[5]);
                    assert(is_error_form);
                }
                if is_error_form {
                    assert(p.take(6) =~= lit);
                }
            }
        }
        if is_error_form {
            let member = string_of_chars(&slice_chars(&cs, 6, cs.len()));
            assert(member@ =~= p.skip(6));
            if let Some(t) = self.ids.get(member.as_str()) {
                return Some(*t);
            }
            return self.first_member_tag(member.as_str());
        }
        let dot = match last_dot_index(&cs) {
            Some(j) => j,
            None => {
                return None;
            },
        };
        let owner = string_of_chars(&slice_chars(&cs, 0, dot));
        let member = string_of_chars(&slice_chars(&cs, dot + 1, cs.len()));
        assert(owner@ =~= p.take(dot as int));
        assert(member@ =~= p.skip(dot + 1));
        let id = match self.type_ids.get(owner.as_str()) {
            Some(i) => *i,
            None => match self.type_ids.get(path.as_str()) {
                Some(i) => *i,
                None => {
                    return None;
                },
            },
        };
        assert((id as int) < self.view().types.len());
        self.member_tag_in(id as usize, member.as_str())
    }

    fn member_tag_in(&self, id: usize, member: &str) -> (r: Option<u32>)
        requires
            id < self.view().types.len(),
        ensures
            r == tag_in(self.view().types[id as int].1, member@),
    {
        let ms = &self.types[id].members;
        let ghost view = self.view().types[id as int].1;
        let mut i: usize = 0;
        assert(view.skip(0) =~= view);
        while i < ms.len()
            invariant
                0 <= i <= ms@.len(),
                view == ms@.map_values(|m: (String, u32)| (m.0@, m.1)),
                id < self.view().types.len(),
                view == self.view().types[id as int].1,
                tag_in(view, member@) == tag_in(view.skip(i as int), member@),
            decreases ms@.len() - i,
        {
            let ghost sk = view.skip(i as int);
            assert(sk[0] == (ms@[i as int].0@, ms@[i as int].1));
            assert(sk.drop_first() =~= view.skip(i + 1));
            if str_eq(ms[i].0.as_str(), member) {
                assert(tag_in(sk, member@) == Some(sk[0].1));
                return Some(ms[i].1);
            }
            i += 1;
        }
        None
    }

    fn first_member_tag(&self, member: &str) -> (r: Option<u32>)
        ensures
            r == first_type_tag(self.view().types, member@),
    {
        let ghost all = self.view().types;
        let mut i: usize = 0;
        assert(all.skip(0) =~= all);
        while i < self.types.len()
            invariant
                0 <= i <= all.len(),
                all == self.view().types,
                first_type_tag(all, member@) == first_type_tag(all.skip(i as int), member@),
            decreases all.len() - i,
        {
            assert(all.skip(i as int)[0] == all[i as int]);
            assert(all.skip(i as int).drop_first() =~= all.skip(i + 1));
            if let Some(t) = self.member_tag_in(i, member) {
                return Some(t);
            }
            i += 1;
        }
        None
    }

    /// The names of the declared error types, by id.
    pub fn type_names(&self) -> (r: Vec<String>)
        ensures
            r@.len() == self.view().types.len(),
            forall|i: int| 0 <= i < r@.len() ==> (#[trigger] r@[i])@ == self.view().types[i].0,
    {
        let mut out: Vec<String> = Vec::new();
        let mut i: usize = 0;
        while i < self.types.len()
            invariant
                0 <= i <= self.types@.len(),
                out@.len() == i,
                forall|j: int| 0 <= j < i ==> (#[trigger] out@[j])@ == self.view().types[j].0,
            decreases self.types@.len() - i,
        {
            out.push(owned(self.types[i].name.as_str()));
            i += 1;
        }
        out
    }

    /// Declare error type `name` (with no members yet) unless it is known.
    pub fn declare(&mut self, name: &str)
        requires
            old(self).wf(),
        ensures
            final(self).wf(),
            final(self).view().ids == old(self).view().ids,
            final(self).view().count == old(self).view().count,
            old(self).view().type_ids.contains_key(name@) ==> final(self).view() == old(self).view(),
            !old(self).view().type_ids.contains_key(name@) ==> {
                &&& final(self).view().type_ids == old(self).view().type_ids.insert(
                    name@,
                    old(self).view().types.len() as u32,
                )
                &&& final(self).view().types == old(self).view().types.push((name@, Seq::empty()))
            },
    {
        if self.type_ids.contains_key(name) {
            return;
        }
        let n = self.types.len();
        let id = n as u32;
        assert(id as usize <= n) by (bit_vector)
            requires
                id == n as u32,
        ;
        self.types.push(ErrorInfo { name: owned(name), members: Vec::new() });
        self.type_ids.insert(owned(name), id);
        proof {
            assert(self.types@.last().members@.map_values(|m: (String, u32)| (m.0@, m.1)) =~= Seq::<
                (Seq<char>, u32),
            >::empty());
            assert(self.view().types =~= old(self).view().types.push((name@, Seq::empty())));
            assert forall|k: Seq<char>| #[trigger] self.view().type_ids.contains_key(k) implies (
            self.view().type_ids[k] as int) < self.view().types.len() by {
                if k != name@ {
                    assert(old(self).view().type_ids.contains_key(k));
                }
            }
        }
    }
}

} // verus!
