//! Multi-root projects: an explicit set of root sources that share module
//! search paths. Each root is a normal compilation unit (`require` closure
//! plus an optional entry).

use vstd::prelude::*;
use crate::diagnostics::span::span_at;
use crate::diagnostics::{views, Diagnostic, DiagnosticBatch, SourceFile, Span, DEFAULT_ERROR_LIMIT};
use crate::session::{CheckedProgram, SessionDiagnostics};
use crate::text::{owned, push_str, str_eq};
use crate::compiler::errors::CompileError;

verus! {

/// One root source in a multi-file project.
pub struct ProjectRoot {
    /// Path shown in diagnostics and used for module-relative imports.
    pub path: String,
    /// File contents.
    pub source: String,
}

/// Options for checking a project. Roots share `module_search_paths`; each
/// root's directory is also searched.
pub struct ProjectOptions {
    pub roots: Vec<ProjectRoot>,
    pub module_search_paths: Vec<String>,
    /// When true, every root must define `entry_name` (`E360`).
    pub require_main: bool,
    pub entry_name: String,
    pub error_limit: usize,
}

/// One `require` edge in the project module graph.
pub struct ModuleGraphEdge {
    /// Root file path or dotted module path that issued the `require`.
    pub from: String,
    /// Resolved module path that was loaded.
    pub to: String,
    /// Path string as written in source.
    pub require_path: String,
    pub span: Span,
}

/// Require closure across all project roots (shared modules appear once).
pub struct ModuleGraph {
    /// Module paths reached from any root (dependency order, deps first).
    pub modules: Vec<String>,
    pub edges: Vec<ModuleGraphEdge>,
}

impl ModuleGraph {
    pub fn new() -> (r: Self)
        ensures
            r.modules@.len() == 0,
            r.edges@.len() == 0,
    {
        ModuleGraph { modules: Vec::new(), edges: Vec::new() }
    }

    /// Record a loaded module once, keeping first-load order.
    pub fn add_module(&mut self, path: String)
        ensures
            views(old(self).modules@).contains(path@) ==> views(final(self).modules@) == views(
                old(self).modules@,
            ),
            !views(old(self).modules@).contains(path@) ==> views(final(self).modules@) == views(
                old(self).modules@,
            ).push(path@),
            final(self).edges == old(self).edges,
    {
        crate::link::push_lib_dir(&mut self.modules, path);
    }
}

impl Default for ModuleGraph {
    fn default() -> (r: Self)
        ensures
            r.modules@.len() == 0,
            r.edges@.len() == 0,
    {
        ModuleGraph::new()
    }
}

/// Whether a module path is not `m`.
pub open spec fn other_than(m: Seq<char>) -> spec_fn(Seq<char>) -> bool {
    |p: Seq<char>| p != m
}

/// Whether `v` holds the text `s`.
fn has_str(v: &Vec<String>, s: &str) -> (r: bool)
    ensures
        r == views(v@).contains(s@),
{
    let mut i: usize = 0;
    while i < v.len()
        invariant
            0 <= i <= v@.len(),
            forall|j: int| 0 <= j < i ==> (#[trigger] v@[j])@ != s@,
        decreases v@.len() - i,
    {
        if str_eq(v[i].as_str(), s) {
            assert(views(v@)[i as int] == s@);
            return true;
        }
        i += 1;
    }
    proof {
        assert forall|j: int| 0 <= j < views(v@).len() implies views(v@)[j] != s@ by {
            assert(views(v@)[j] == v@[j]@);
        }
    }
    false
}

/// Drop every entry of `v` equal to `s`, keeping the others in order.
fn remove_str(v: &mut Vec<String>, s: &str)
    ensures
        views(final(v)@) == views(old(v)@).filter(other_than(s@)),
{
    let mut all: Vec<String> = Vec::new();
    std::mem::swap(&mut all, v);
    let mut i: usize = 0;
    proof {
        reveal(Seq::filter);
        assert(views(all@.take(0)) =~= Seq::<Seq<char>>::empty());
        assert(views(v@) =~= views(all@.take(0)).filter(other_than(s@)));
    }
    while i < all.len()
        invariant
            0 <= i <= all@.len(),
            all@ == old(v)@,
            views(v@) == views(all@.take(i as int)).filter(other_than(s@)),
        decreases all@.len() - i,
    {
        proof {
            reveal(Seq::filter);
            assert(views(all@.take(i + 1)).drop_last() =~= views(all@.take(i as int)));
            assert(views(all@.take(i + 1)).last() == all@[i as int]@);
        }
        if !str_eq(all[i].as_str(), s) {
            let kept = all[i].clone();
            v.push(kept);
            proof {
                assert(views(v@) =~= views(all@.take(i as int)).filter(other_than(s@)).push(all@[i as int]@));
            }
        }
        i += 1;
    }
    proof {
        assert(all@.take(i as int) =~= all@);
    }
}

/// What the walk does with a `require` of a resolved module.
#[derive(Debug, Clone, Copy, PartialEq, Eq, Structural)]
pub enum RequireStep {
    /// The module was loaded already; nothing more to do.
    Skip,
    /// Load the module, follow its own `require`s, then `leave` it.
    Load,
}

/// The bookkeeping of a depth-first walk over `require` edges: the modules
/// whose loading finished, those on the chain being loaded, and the graph.
pub struct RequireWalk {
    pub loaded: Vec<String>,
    pub loading: Vec<String>,
    pub graph: ModuleGraph,
}

impl RequireWalk {
    pub fn new() -> (r: Self)
        ensures
            r.loaded@.len() == 0,
            r.loading@.len() == 0,
            r.graph.modules@.len() == 0,
            r.graph.edges@.len() == 0,
    {
        RequireWalk { loaded: Vec::new(), loading: Vec::new(), graph: ModuleGraph::new() }
    }

    /// Record the edge `from -> resolved` (written `require_path` at
    /// `span`) and decide: a module loaded already is skipped; one still on
    /// the loading chain closes a cycle (`E382`); any other joins the chain
    /// and is to be loaded.
    pub fn enter(&mut self, from: &str, resolved: &str, require_path: &str, span: Span) -> (r: Result<
        RequireStep,
        CompileError,
    >)
        ensures
            final(self).graph.edges@.len() == old(self).graph.edges@.len() + 1,
            forall|i: int|
                0 <= i < old(self).graph.edges@.len() ==> #[trigger] final(self).graph.edges@[i] == old(
                    self,
                ).graph.edges@[i],
            final(self).graph.edges@.last().from@ == from@,
            final(self).graph.edges@.last().to@ == resolved@,
            final(self).graph.edges@.last().require_path@ == require_path@,
            final(self).graph.edges@.last().span == span,
            final(self).graph.modules == old(self).graph.modules,
            final(self).loaded == old(self).loaded,
            views(old(self).loaded@).contains(resolved@) ==> (r == Ok::<RequireStep, CompileError>(
                RequireStep::Skip,
            ) && final(self).loading == old(self).loading),
            !views(old(self).loaded@).contains(resolved@) && views(old(self).loading@).contains(resolved@)
                ==> (r matches Err(e) && e.diagnostic.code@ == "E382"@ && e.diagnostic.message@
                == "module dependency cycle involving '"@ + resolved@ + "'"@ && e.diagnostic.labels@.len()
                == 1 && e.diagnostic.labels@[0].span == span && e.diagnostic.helps@.len() == 1
                && e.diagnostic.helps@[0]@ == "break the cycle by removing or restructuring one `require`"@
                && final(self).loading == old(self).loading),
            !views(old(self).loaded@).contains(resolved@) && !views(old(self).loading@).contains(resolved@)
                ==> (r == Ok::<RequireStep, CompileError>(RequireStep::Load) && views(final(self).loading@)
                == views(old(self).loading@).push(resolved@)),
    {
        let edge = ModuleGraphEdge {
            from: owned(from),
            to: owned(resolved),
            require_path: owned(require_path),
            span,
        };
        self.graph.edges.push(edge);
        if has_str(&self.loaded, resolved) {
            return Ok(RequireStep::Skip);
        }
        if has_str(&self.loading, resolved) {
            let mut m = owned("module dependency cycle involving '");
            push_str(&mut m, resolved);
            push_str(&mut m, "'");
            let e = CompileError::new(m, span, owned("E382"));
            return Err(e.with_help(owned("break the cycle by removing or restructuring one `require`")));
        }
        self.loading.push(owned(resolved));
        proof {
            assert(views(self.loading@) =~= views(old(self).loading@).push(resolved@));
        }
        Ok(RequireStep::Load)
    }

    /// Finish loading `resolved`: it leaves the loading chain, counts as
    /// loaded, and is listed once in the graph's modules (dependencies
    /// before the modules that require them).
    pub fn leave(&mut self, resolved: &str)
        ensures
            views(final(self).loading@) == views(old(self).loading@).filter(other_than(resolved@)),
            views(old(self).loaded@).contains(resolved@) ==> views(final(self).loaded@) == views(
                old(self).loaded@,
            ),
            !views(old(self).loaded@).contains(resolved@) ==> views(final(self).loaded@) == views(
                old(self).loaded@,
            ).push(resolved@),
            views(old(self).graph.modules@).contains(resolved@) ==> views(final(self).graph.modules@)
                == views(old(self).graph.modules@),
            !views(old(self).graph.modules@).contains(resolved@) ==> views(final(self).graph.modules@)
                == views(old(self).graph.modules@).push(resolved@),
            final(self).graph.edges == old(self).graph.edges,
    {
        remove_str(&mut self.loading, resolved);
        crate::link::push_lib_dir(&mut self.loaded, owned(resolved));
        self.graph.add_module(owned(resolved));
    }
}

/// Successful multi-root check: each root's checked program plus the graph.
pub struct CheckedProject {
    pub roots: Vec<CheckedProgram>,
    pub graph: ModuleGraph,
}

impl ProjectOptions {
    /// Options for the given roots with the defaults: no extra search paths,
    /// entry `main` required, the default error limit.
    pub fn from_roots(roots: Vec<ProjectRoot>) -> (r: Self)
        ensures
            r.roots@ == roots@,
            r.module_search_paths@.len() == 0,
            r.require_main,
            r.entry_name@ == "main"@,
            r.error_limit == DEFAULT_ERROR_LIMIT,
    {
        ProjectOptions {
            roots,
            module_search_paths: Vec::new(),
            require_main: true,
            entry_name: owned("main"),
            error_limit: DEFAULT_ERROR_LIMIT,
        }
    }

    /// A project needs at least one root (`E383` otherwise).
    pub fn require_roots(&self) -> (r: Result<(), SessionDiagnostics>)
        ensures
            r is Ok <==> self.roots@.len() > 0,
            r matches Err(d) ==> d.batch.items().len() == 1 && d.batch.items()[0].code@ == "E383"@
                && d.batch.items()[0].message@ == "project has no roots"@ && d.file.path@
                == "<project>"@,
    {
        if self.roots.len() > 0 {
            return Ok(());
        }
        Err(
            project_diag(
                "<project>",
                String::new(),
                "E383",
                owned("project has no roots"),
                "add at least one root `.yar` path or `ProjectRoot`",
            ),
        )
    }
}

/// The `E383` diagnostics for a root path that cannot be read.
pub fn unreadable_root(display: &str, reason: &str) -> (r: SessionDiagnostics)
    ensures
        r.file.path@ == display@,
        r.file.source@.len() == 0,
        r.batch.items().len() == 1,
        r.batch.items()[0].code@ == "E383"@,
        r.batch.items()[0].message@ == "project root not found or unreadable: "@ + display@ + " ("@
            + reason@ + ")"@,
{
    let mut m = owned("project root not found or unreadable: ");
    push_str(&mut m, display);
    push_str(&mut m, " (");
    push_str(&mut m, reason);
    push_str(&mut m, ")");
    project_diag(
        display,
        String::new(),
        "E383",
        m,
        "pass an existing `.yar` path, or supply `ProjectRoot::source` in memory",
    )
}

/// One project-level error: a primary label at the default span and a help.
fn project_diag(path: &str, source: String, code: &str, message: String, help: &str) -> (r:
    SessionDiagnostics)
    ensures
        r.file.path@ == path@,
        r.file.source@ == source@,
        r.batch.wf(),
        r.batch.items().len() == 1,
        r.batch.items()[0].code@ == code@,
        r.batch.items()[0].message@ == message@,
        r.batch.items()[0].path@ == path@,
        r.batch.items()[0].labels@.len() == 1,
        r.batch.items()[0].labels@[0].span == span_at(0, 0, 1, 1),
        views(r.batch.items()[0].helps@) == seq![help@],
{
    let file = SourceFile::new(owned(path), source);
    let mut batch = DiagnosticBatch::with_limit(DEFAULT_ERROR_LIMIT);
    let diag = Diagnostic::error(owned(code), message).with_path(owned(path)).with_primary(
        Span::default(),
        String::new(),
    ).with_help(owned(help));
    assert(views(diag.helps@) =~= seq![help@]);
    batch.push(diag);
    assert(batch.items() =~= seq![diag]);
    SessionDiagnostics { file, batch }
}

} // verus!
