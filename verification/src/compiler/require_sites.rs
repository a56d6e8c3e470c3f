//! Where a program requires modules: the `require` statements that the
//! compiler and the interpreter load, in the order they load them, and what
//! a required path names.

use vstd::prelude::*;
use crate::compiler::modules::opt_view;
use crate::diagnostics::Span;
use crate::interpreter::registry::last_dot;
use crate::parser::ast::{has_entry_spec, is_function_named, MatchCase, Program, Stmt, StmtKind};
use crate::text::{chars_of, owned, slice_chars, str_eq, string_of_chars};

verus! {

/// A `require` statement: the path, the alias, and where it stands.
pub type RequireSite = (Seq<char>, Option<Seq<char>>, Span);

/// The `require` statements among `stmts`, in order, looking inside
/// conditionals, loops, match cases, `defer`, `unsafe` and `handle` bodies,
/// and inside nested function bodies when `fns` holds.
pub open spec fn stmts_sites(stmts: Seq<Stmt>, fns: bool) -> Seq<RequireSite>
    decreases stmts,
{
    if stmts.len() == 0 {
        Seq::empty()
    } else {
        stmts_sites(stmts.drop_last(), fns) + stmt_sites(stmts.last(), fns)
    }
}

pub open spec fn stmt_sites(s: Stmt, fns: bool) -> Seq<RequireSite>
    decreases s,
{
    match s.kind {
        StmtKind::Require { path, alias } => seq![(path@, opt_view(alias), s.span)],
        StmtKind::Function(f) => if fns {
            stmts_sites(f.body@, fns)
        } else {
            Seq::empty()
        },
        StmtKind::If { then_branch, else_branch, .. } => stmts_sites(then_branch@, fns) + stmts_sites(
            else_branch@,
            fns,
        ),
        StmtKind::For { body, .. } => stmts_sites(body@, fns),
        StmtKind::Match { cases, else_branch, .. } => cases_sites(cases@, fns) + stmts_sites(else_branch@, fns),
        StmtKind::Defer { body } => stmts_sites(body@, fns),
        StmtKind::Unsafe { body } => stmts_sites(body@, fns),
        StmtKind::Handle { body, .. } => stmts_sites(body@, fns),
        _ => Seq::empty(),
    }
}

pub open spec fn cases_sites(cases: Seq<MatchCase>, fns: bool) -> Seq<RequireSite>
    decreases cases,
{
    if cases.len() == 0 {
        Seq::empty()
    } else {
        cases_sites(cases.drop_last(), fns) + stmts_sites(cases.last().body@, fns)
    }
}

/// The `require` statements the compiler loads for a program: top-level
/// ones, and those in the bodies of top-level functions and methods (not in
/// functions nested deeper).
pub open spec fn compiler_sites(items: Seq<Stmt>) -> Seq<RequireSite>
    decreases items.len(),
{
    if items.len() == 0 {
        Seq::empty()
    } else {
        let last = items.last();
        compiler_sites(items.drop_last()) + match last.kind {
            StmtKind::Require { path, alias } => seq![(path@, opt_view(alias), last.span)],
            StmtKind::Function(f) => stmts_sites(f.body@, false),
            StmtKind::Implement(imp) => methods_sites(imp.functions@.map_values(|f: crate::parser::ast::Function| f.body@)),
            _ => Seq::empty(),
        }
    }
}

/// The `require` statements in a list of function bodies.
pub open spec fn methods_sites(bodies: Seq<Seq<Stmt>>) -> Seq<RequireSite>
    decreases bodies.len(),
{
    if bodies.len() == 0 {
        Seq::empty()
    } else {
        methods_sites(bodies.drop_last()) + stmts_sites(bodies.last(), false)
    }
}

/// The sites of `stmts`, by value.
fn push_site(out: &mut Vec<(String, Option<String>, Span)>, path: &String, alias: &Option<String>, span: Span)
    ensures
        sites_view(final(out)@) == sites_view(old(out)@).push((path@, opt_view(*alias), span)),
{
    let a = match alias {
        Some(s) => Some(s.clone()),
        None => None,
    };
    out.push((path.clone(), a, span));
    assert(sites_view(out@) =~= sites_view(old(out)@).push((path@, opt_view(*alias), span)));
}

/// Require sites as the library returns them, by value.
pub open spec fn sites_view(v: Seq<(String, Option<String>, Span)>) -> Seq<RequireSite> {
    v.map_values(|x: (String, Option<String>, Span)| (x.0@, opt_view(x.1), x.2))
}

/// Append the `require` statements among `stmts` to `out` (see
/// `stmts_sites`).
pub fn collect_require_sites(stmts: &Vec<Stmt>, fns: bool, out: &mut Vec<(String, Option<String>, Span)>)
    ensures
        sites_view(final(out)@) == sites_view(old(out)@) + stmts_sites(stmts@, fns),
    decreases stmts@,
{
    let mut i: usize = 0;
    assert(stmts@.take(0) =~= Seq::<Stmt>::empty());
    assert(sites_view(out@) =~= sites_view(old(out)@) + stmts_sites(stmts@.take(0), fns));
    while i < stmts.len()
        invariant
            0 <= i <= stmts@.len(),
            sites_view(out@) == sites_view(old(out)@) + stmts_sites(stmts@.take(i as int), fns),
        decreases stmts@.len() - i,
    {
        let ghost before = sites_view(out@);
        assert(stmts@.take(i + 1).drop_last() =~= stmts@.take(i as int));
        assert(stmts@.take(i + 1).last() == stmts@[i as int]);
        assert(decreases_to!(stmts@ => stmts@[i as int]));
        collect_stmt_sites(&stmts[i], fns, out);
        assert(sites_view(out@) =~= sites_view(old(out)@) + stmts_sites(stmts@.take(i + 1), fns));
        i += 1;
    }
    assert(stmts@.take(stmts@.len() as int) =~= stmts@);
}

#[verifier::loop_isolation(false)]
fn collect_stmt_sites(s: &Stmt, fns: bool, out: &mut Vec<(String, Option<String>, Span)>)
    ensures
        sites_view(final(out)@) == sites_view(old(out)@) + stmt_sites(*s, fns),
    decreases s,
{
    match &s.kind {
        StmtKind::Require { path, alias } => {
            push_site(out, path, alias, s.span);
        },
        StmtKind::Function(f) => {
            if fns {
                collect_require_sites(&f.body, fns, out);
            } else {
                assert(sites_view(out@) =~= sites_view(old(out)@) + Seq::<RequireSite>::empty());
            }
        },
        StmtKind::If { then_branch, else_branch, .. } => {
            collect_require_sites(then_branch, fns, out);
            collect_require_sites(else_branch, fns, out);
            assert(sites_view(out@) =~= sites_view(old(out)@) + stmt_sites(*s, fns));
        },
        StmtKind::For { body, .. } => collect_require_sites(body, fns, out),
        StmtKind::Match { cases, else_branch, .. } => {
            let mut k: usize = 0;
            assert(cases@.take(0) =~= Seq::<MatchCase>::empty());
            assert(sites_view(out@) =~= sites_view(old(out)@) + cases_sites(cases@.take(0), fns));
            while k < cases.len()
                invariant
                    0 <= k <= cases@.len(),
                    sites_view(out@) == sites_view(old(out)@) + cases_sites(cases@.take(k as int), fns),
                decreases cases@.len() - k,
            {
                assert(cases@.take(k + 1).drop_last() =~= cases@.take(k as int));
                assert(cases@.take(k + 1).last() == cases@[k as int]);
                assert(decreases_to!(s => cases@[k as int].body@));
                collect_require_sites(&cases[k].body, fns, out);
                assert(sites_view(out@) =~= sites_view(old(out)@) + cases_sites(cases@.take(k + 1), fns));
                k += 1;
            }
            assert(cases@.take(cases@.len() as int) =~= cases@);
            collect_require_sites(else_branch, fns, out);
            assert(sites_view(out@) =~= sites_view(old(out)@) + stmt_sites(*s, fns));
        },
        StmtKind::Defer { body } => collect_require_sites(body, fns, out),
        StmtKind::Unsafe { body } => collect_require_sites(body, fns, out),
        StmtKind::Handle { body, .. } => collect_require_sites(body, fns, out),
        _ => {
            assert(sites_view(out@) =~= sites_view(old(out)@) + Seq::<RequireSite>::empty());
        },
    }
}

/// The `require` statements the compiler loads for `program` (see
/// `compiler_sites`), in order.
pub fn compiler_require_sites(program: &Program) -> (r: Vec<(String, Option<String>, Span)>)
    ensures
        sites_view(r@) == compiler_sites(program.items@),
{
    let items = &program.items;
    let mut out: Vec<(String, Option<String>, Span)> = Vec::new();
    let mut i: usize = 0;
    assert(items@.take(0) =~= Seq::<Stmt>::empty());
    assert(sites_view(out@) =~= Seq::<RequireSite>::empty());
    while i < items.len()
        invariant
            0 <= i <= items@.len(),
            sites_view(out@) == compiler_sites(items@.take(i as int)),
        decreases items@.len() - i,
    {
        let ghost before = sites_view(out@);
        assert(items@.take(i + 1).drop_last() =~= items@.take(i as int));
        assert(items@.take(i + 1).last() == items@[i as int]);
        let item = &items[i];
        match &item.kind {
            StmtKind::Require { path, alias } => {
                push_site(&mut out, path, alias, item.span);
            },
            StmtKind::Function(f) => {
                collect_require_sites(&f.body, false, &mut out);
            },
            StmtKind::Implement(imp) => {
                let ghost bodies = imp.functions@.map_values(|f: crate::parser::ast::Function| f.body@);
                let mut k: usize = 0;
                assert(bodies.take(0) =~= Seq::<Seq<Stmt>>::empty());
                assert(sites_view(out@) =~= before + methods_sites(bodies.take(0)));
                while k < imp.functions.len()
                    invariant
                        0 <= k <= imp.functions@.len(),
                        bodies == imp.functions@.map_values(|f: crate::parser::ast::Function| f.body@),
                        sites_view(out@) == before + methods_sites(bodies.take(k as int)),
                    decreases imp.functions@.len() - k,
                {
                    assert(bodies.take(k + 1).drop_last() =~= bodies.take(k as int));
                    assert(bodies.take(k + 1).last() == imp.functions@[k as int].body@);
                    collect_require_sites(&imp.functions[k].body, false, &mut out);
                    assert(sites_view(out@) =~= before + methods_sites(bodies.take(k + 1)));
                    k += 1;
                }
                assert(bodies.take(bodies.len() as int) =~= bodies);
            },
            _ => {},
        }
        assert(sites_view(out@) =~= compiler_sites(items@.take(i + 1)));
        i += 1;
    }
    assert(items@.take(items@.len() as int) =~= items@);
    out
}

/// The `require` statements the interpreter loads for `program` (see
/// `stmts_sites`, nested function bodies included), in order.
pub fn interpreter_require_sites(program: &Program) -> (r: Vec<(String, Option<String>, Span)>)
    ensures
        sites_view(r@) == stmts_sites(program.items@, true),
{
    let mut out: Vec<(String, Option<String>, Span)> = Vec::new();
    assert(sites_view(out@) =~= Seq::<RequireSite>::empty());
    collect_require_sites(&program.items, true, &mut out);
    assert(Seq::<RequireSite>::empty() + stmts_sites(program.items@, true) =~= stmts_sites(program.items@, true));
    out
}

/// The module a required path would import a function from: what precedes
/// its last `.`.
pub open spec fn parent_path(path: Seq<char>) -> Option<Seq<char>> {
    match last_dot(path) {
        Some(j) => Some(path.take(j)),
        None => None,
    }
}

/// What a required path names, given the program of its parent module
/// when that module exists: `a.b.f` names function `f` of module `a.b`
/// when `a.b` declares one; otherwise the path names a module.
pub open spec fn require_target_spec(path: Seq<char>, parent: Option<Seq<Stmt>>) -> (Seq<char>, Option<Seq<char>>) {
    match last_dot(path) {
        Some(j) => match parent {
            Some(items) => if has_entry_spec(items, path.skip(j + 1)) {
                (path.take(j), Some(path.skip(j + 1)))
            } else {
                (path, None)
            },
            None => (path, None),
        },
        None => (path, None),
    }
}

/// The index of the last `.` in `cs`.
pub(crate) fn last_dot_index(cs: &Vec<char>) -> (r: Option<usize>)
    ensures
        match r {
            Some(j) => last_dot(cs@) == Some(j as int) && j < cs@.len(),
            None => last_dot(cs@) is None,
        },
{
    let mut j: usize = cs.len();
    assert(cs@.take(cs@.len() as int) =~= cs@);
    while j > 0 && cs[j - 1] != '.'
        invariant
            j <= cs@.len(),
            last_dot(cs@) == last_dot(cs@.take(j as int)),
        decreases j,
    {
        assert(cs@.take(j as int).drop_last() =~= cs@.take(j - 1));
        j -= 1;
    }
    if j == 0 {
        assert(cs@.take(0) =~= Seq::<char>::empty());
        None
    } else {
        assert(cs@.take(j as int).last() == '.');
        Some(j - 1)
    }
}

/// The parent module of a required path, if it has one (see `parent_path`).
pub fn require_parent(path: &str) -> (r: Option<String>)
    ensures
        opt_view(r) == parent_path(path@),
{
    let cs = chars_of(path);
    match last_dot_index(&cs) {
        Some(j) => {
            let p = string_of_chars(&slice_chars(&cs, 0, j));
            assert(p@ =~= path@.take(j as int));
            Some(p)
        },
        None => None,
    }
}

/// The module path and imported function that a required path names
/// (see `require_target_spec`); `parent` is the program of its parent
/// module, when that module exists.
#[verifier::loop_isolation(false)]
pub fn require_target(path: &str, parent: Option<&Program>) -> (r: (String, Option<String>))
    ensures
        (r.0@, opt_view(r.1)) == require_target_spec(
            path@,
            match parent {
                Some(p) => Some(p.items@),
                None => None,
            },
        ),
{
    let cs = chars_of(path);
    let j = match last_dot_index(&cs) {
        Some(j) => j,
        None => {
            return (owned(path), None);
        },
    };
    let prog = match parent {
        Some(p) => p,
        None => {
            return (owned(path), None);
        },
    };
    assert(j < cs.len());
    let last = string_of_chars(&slice_chars(&cs, j + 1, cs.len()));
    assert(last@ =~= path@.skip(j + 1));
    let mut i: usize = 0;
    while i < prog.items.len()
        invariant
            0 <= i <= prog.items@.len(),
            forall|k: int| 0 <= k < i ==> !is_function_named(#[trigger] prog.items@[k], last@),
        decreases prog.items@.len() - i,
    {
        match &prog.items[i].kind {
            StmtKind::Function(f) => {
                if str_eq(f.name.as_str(), last.as_str()) {
                    let head = string_of_chars(&slice_chars(&cs, 0, j));
                    assert(head@ =~= path@.take(j as int));
                    return (head, Some(last));
                }
            },
            _ => {},
        }
        i += 1;
    }
    (owned(path), None)
}

} // verus!
