//! Session settings and the decisions a session makes around its back ends:
//! the entry-point requirement, which back end a call may use, and how
//! failures become diagnostics.

use vstd::prelude::*;
use crate::analysis::{innermost, TypeIndex, TypeProbe};
use crate::compiler::errors::CompileError;
use crate::diagnostics::render::{render, render_spec};
use crate::diagnostics::span::span_at;
use crate::diagnostics::{views, Diagnostic, DiagnosticBatch, Severity, SourceFile, Span, DEFAULT_ERROR_LIMIT};
use crate::parser::ast::{is_function_named, has_entry_spec, Program, Stmt, StmtKind};
use crate::target::TargetTriple;
use crate::text::{chars_of, decimal, owned, push_str};

verus! {

/// How a session turns a checked program into code or executes it.
#[derive(Debug, Clone, Copy, PartialEq, Eq, Structural)]
pub enum ExecutionMode {
    /// Full type / ownership / stack / region checks; no machine code.
    Check,
    /// In-process machine code.
    Jit,
    /// Native relocatable object (ahead of time); the default.
    Object,
    /// Stack VM / AST interpreter.
    Interpret,
}

impl Default for ExecutionMode {
    fn default() -> (r: Self)
        ensures
            r == ExecutionMode::Object,
    {
        ExecutionMode::Object
    }
}

/// Code generator optimization tier; the default is no optimization.
#[derive(Debug, Clone, Copy, PartialEq, Eq, Structural)]
pub enum OptLevel {
    /// No mid-end optimizations (`opt_level=none`).
    Off,
    /// Optimize for speed (`opt_level=speed`).
    Speed,
    /// Optimize for speed and size (`opt_level=speed_and_size`).
    Size,
}

impl Default for OptLevel {
    fn default() -> (r: Self)
        ensures
            r == OptLevel::Off,
    {
        OptLevel::Off
    }
}

impl OptLevel {
    /// The code generator's `opt_level` setting string.
    pub fn as_cranelift(self) -> (r: &'static str)
        ensures
            r@ == match self {
                OptLevel::Off => "none"@,
                OptLevel::Speed => "speed"@,
                OptLevel::Size => "speed_and_size"@,
            },
    {
        match self {
            OptLevel::Off => "none",
            OptLevel::Speed => "speed",
            OptLevel::Size => "speed_and_size",
        }
    }
}

/// Options for one compile/check session.
pub struct CompileOptions {
    /// Source path shown in diagnostics and used for module-relative imports.
    pub source_path: String,
    /// Extra module lookup roots (`"a.b"` => `a/b.yar`).
    pub module_search_paths: Vec<String>,
    /// Whether this session requires a top-level entry function.
    pub require_main: bool,
    /// Top-level entry function name (default `main`).
    pub entry_name: String,
    /// Maximum number of diagnostics to collect before aborting.
    pub error_limit: usize,
    /// Back end / check mode for this session.
    pub mode: ExecutionMode,
    /// Optimization tier.
    pub opt_level: OptLevel,
    /// Emit debug info into object / executable products.
    pub debug_info: bool,
    /// Object / executable target triple; `None` means the host.
    pub target: Option<TargetTriple>,
}

impl CompileOptions {
    /// Defaults: entry `main` required, the default error limit, object
    /// mode, no optimization, debug info on, the host target.
    pub fn new(source_path: String) -> (r: Self)
        ensures
            r.source_path@ == source_path@,
            r.module_search_paths@.len() == 0,
            r.require_main,
            r.entry_name@ == "main"@,
            r.error_limit == DEFAULT_ERROR_LIMIT,
            r.mode == ExecutionMode::Object,
            r.opt_level == OptLevel::Off,
            r.debug_info,
            r.target is None,
    {
        CompileOptions {
            source_path,
            module_search_paths: Vec::new(),
            require_main: true,
            entry_name: owned("main"),
            error_limit: DEFAULT_ERROR_LIMIT,
            mode: ExecutionMode::Object,
            opt_level: OptLevel::Off,
            debug_info: true,
            target: None,
        }
    }

    /// Effective ahead-of-time / check triple: `target`, else the host.
    pub fn effective_target(&self) -> (r: TargetTriple)
        ensures
            self.target matches Some(t) ==> r.text_view() == t.text_view() && r.arch_kind()
                == t.arch_kind() && r.os_kind() == t.os_kind() && r.env_kind() == t.env_kind(),
    {
        match &self.target {
            Some(t) => t.duplicate(),
            None => TargetTriple::host(),
        }
    }
}

/// Stateful front-end entry point.
pub struct Session {
    pub options: CompileOptions,
}

/// Program that passed semantic analysis, with its warnings and typed sites.
pub struct CheckedProgram {
    pub file: SourceFile,
    pub program: Program,
    pub warnings: DiagnosticBatch,
    /// Typed sites in the root file (bindings / function signatures).
    pub type_index: TypeIndex,
}

impl CheckedProgram {
    /// Probe the binding / function type at a byte offset in the root file;
    /// `None` outside every recorded site.
    pub fn type_at(&self, offset: usize) -> (r: Option<TypeProbe>)
        ensures
            match innermost(self.type_index.site_spans(), offset) {
                Some(k) => r matches Some(p) && p.same_as(self.type_index.sites()[k]),
                None => r is None,
            },
    {
        self.type_index.type_at(offset)
    }
}

/// Relocatable native object for a target.
pub struct ObjectArtifact {
    pub file: SourceFile,
    /// Object file bytes (non-empty on success).
    pub bytes: Vec<u8>,
    /// Intermediate code captured during the same lowering pass.
    pub ir: String,
    /// Yarrow entry name that process `main` calls in this object.
    pub entry_name: String,
    /// Triple this object was lowered for.
    pub target: TargetTriple,
}

/// Host executable linked from a program object and the runtime archive.
pub struct ExecutableArtifact {
    pub file: SourceFile,
    /// Executable file bytes (non-empty on success).
    pub bytes: Vec<u8>,
    /// Intermediate code from the object lowering pass.
    pub ir: String,
    /// Yarrow entry name that process `main` calls.
    pub entry_name: String,
    /// Triple this executable was linked for.
    pub target: TargetTriple,
}

/// Diagnostics emitted while processing one source file.
pub struct SessionDiagnostics {
    pub file: SourceFile,
    pub batch: DiagnosticBatch,
}

/// Index of the first top-level function, if any.
pub open spec fn first_function(items: Seq<Stmt>) -> Option<int>
    decreases items.len(),
{
    if items.len() == 0 {
        None
    } else if items[0].kind is Function {
        Some(0)
    } else {
        match first_function(items.drop_first()) {
            Some(i) => Some(i + 1),
            None => None,
        }
    }
}

/// Where a missing-entry error points: the first function, else the first
/// item, else the default span.
pub open spec fn missing_entry_span(items: Seq<Stmt>) -> Span {
    match first_function(items) {
        Some(i) => items[i].span,
        None => if items.len() > 0 {
            items[0].span
        } else {
            span_at(0, 0, 1, 1)
        },
    }
}

proof fn lemma_first_function(items: Seq<Stmt>)
    ensures
        match first_function(items) {
            Some(i) => 0 <= i < items.len() && items[i].kind is Function && forall|j: int|
                0 <= j < i ==> (#[trigger] items[j]).kind !is Function,
            None => forall|j: int| 0 <= j < items.len() ==> (#[trigger] items[j]).kind !is Function,
        },
    decreases items.len(),
{
    if items.len() > 0 {
        lemma_first_function(items.drop_first());
        assert forall|j: int| 1 <= j < items.len() implies #[trigger] items[j] == items.drop_first()[j
            - 1] by {}
    }
}

fn missing_entry_span_of(program: &Program) -> (r: Span)
    ensures
        r == missing_entry_span(program.items@),
{
    proof {
        lemma_first_function(program.items@);
    }
    let mut i: usize = 0;
    while i < program.items.len()
        invariant
            0 <= i <= program.items@.len(),
            forall|j: int| 0 <= j < i ==> (#[trigger] program.items@[j]).kind !is Function,
        decreases program.items@.len() - i,
    {
        if let StmtKind::Function(_) = &program.items[i].kind {
            proof {
                lemma_first_function(program.items@);
            }
            return program.items[i].span;
        }
        i += 1;
    }
    proof {
        lemma_first_function(program.items@);
    }
    if program.items.len() > 0 {
        program.items[0].span
    } else {
        Span::default()
    }
}

/// A batch with the given limit holding one diagnostic.
fn single_batch(diag: Diagnostic, error_limit: usize) -> (r: DiagnosticBatch)
    requires
        diag.severity == Severity::Error,
    ensures
        r.wf(),
        r.spec_limit() == if error_limit >= 1 { error_limit } else { 1 },
        r.items() == seq![diag],
{
    let mut batch = DiagnosticBatch::with_limit(error_limit);
    batch.push(diag);
    assert(batch.items() =~= seq![diag]);
    batch
}

/// A batch (with the given error limit) holding a compile error's diagnostic.
pub fn one_compile_error(err: CompileError, error_limit: usize) -> (r: DiagnosticBatch)
    ensures
        r.wf(),
        r.spec_limit() == if error_limit >= 1 { error_limit } else { 1 },
        err.diagnostic.severity == Severity::Error ==> r.items() == seq![*err.diagnostic],
        err.diagnostic.severity != Severity::Error ==> r.items() == seq![*err.diagnostic],
{
    let mut batch = DiagnosticBatch::with_limit(error_limit);
    let d = *err.diagnostic;
    batch.push(d);
    assert(batch.items() =~= seq![*err.diagnostic]);
    batch
}

impl Session {
    pub fn new(options: CompileOptions) -> (r: Self)
        ensures
            r.options == options,
    {
        Session { options }
    }

    /// Fail with `E360` when an entry function is required and missing; the
    /// error points at the first function, else the first item.
    pub fn require_main_if_needed(&self, file: &SourceFile, program: &Program) -> (r: Result<
        (),
        SessionDiagnostics,
    >)
        ensures
            r is Ok <==> (!self.options.require_main || has_entry_spec(
                program.items@,
                self.options.entry_name@,
            )),
            r matches Err(d) ==> {
                &&& d.file.path@ == file.path@
                &&& d.file.source@ == file.source@
                &&& d.batch.items().len() == 1
                &&& d.batch.items()[0].code@ == "E360"@
                &&& d.batch.items()[0].message@ == "program has no '"@ + self.options.entry_name@
                    + "' function"@
                &&& d.batch.items()[0].path@ == self.options.source_path@
                &&& d.batch.items()[0].labels@.len() == 1
                &&& d.batch.items()[0].labels@[0].span == missing_entry_span(program.items@)
                &&& views(d.batch.items()[0].notes@) == seq![
                    "running a `.yar` file requires a top-level `"@ + self.options.entry_name@
                        + "` entry point"@,
                ]
                &&& views(d.batch.items()[0].helps@) == seq![
                    "add `"@ + self.options.entry_name@
                        + " function do ... end`, optionally `with T` for a printable result"@,
                ]
            },
    {
        let entry = self.options.entry_name.as_str();
        if !self.options.require_main || program.has_entry(entry) {
            return Ok(());
        }
        let span = missing_entry_span_of(program);
        let mut message = owned("program has no '");
        push_str(&mut message, entry);
        push_str(&mut message, "' function");
        let mut note = owned("running a `.yar` file requires a top-level `");
        push_str(&mut note, entry);
        push_str(&mut note, "` entry point");
        let mut help = owned("add `");
        push_str(&mut help, entry);
        push_str(&mut help, " function do ... end`, optionally `with T` for a printable result");
        let diag = Diagnostic::error(owned("E360"), message).with_path(
            self.options.source_path.clone(),
        ).with_primary(span, String::new()).with_note(note).with_help(help);
        assert(views(diag.notes@) =~= seq![note@]);
        assert(views(diag.helps@) =~= seq![help@]);
        let batch = single_batch(diag, self.options.error_limit);
        Err(SessionDiagnostics { file: file.duplicate(), batch })
    }

    /// The diagnostics for a call that this session's back end cannot serve:
    /// one error with a primary label at the default span and a help line.
    pub fn backend_not_ready(&self, source: String, code: &str, message: &str, help: &str) -> (r:
        SessionDiagnostics)
        ensures
            r.file.path@ == self.options.source_path@,
            r.file.source@ == source@,
            r.batch.items().len() == 1,
            r.batch.items()[0].code@ == code@,
            r.batch.items()[0].message@ == message@,
            r.batch.items()[0].path@ == self.options.source_path@,
            r.batch.items()[0].labels@.len() == 1,
            r.batch.items()[0].labels@[0].span == span_at(0, 0, 1, 1),
            views(r.batch.items()[0].helps@) == seq![help@],
    {
        let path = self.options.source_path.clone();
        let file = SourceFile::new(path.clone(), source);
        let diag = Diagnostic::error(owned(code), owned(message)).with_path(path).with_primary(
            Span::default(),
            String::new(),
        ).with_help(owned(help));
        assert(views(diag.helps@) =~= seq![help@]);
        let batch = single_batch(diag, self.options.error_limit);
        SessionDiagnostics { file, batch }
    }

    /// Whether this session's mode can produce an in-process artifact:
    /// object mode fails with `E391` and interpret mode with `E392`; check
    /// and JIT modes hand the source back.
    pub fn jit_mode_check(&self, source: String) -> (r: Result<String, SessionDiagnostics>)
        ensures
            match self.options.mode {
                ExecutionMode::Object => r matches Err(d) && d.batch.items().len() == 1
                    && d.batch.items()[0].code@ == "E391"@,
                ExecutionMode::Interpret => r matches Err(d) && d.batch.items().len() == 1
                    && d.batch.items()[0].code@ == "E392"@,
                _ => r matches Ok(s) && s@ == source@,
            },
    {
        match self.options.mode {
            ExecutionMode::Object => Err(
                self.backend_not_ready(
                    source,
                    "E391",
                    "ExecutionMode::Object does not produce a JIT artifact",
                    "call Session::compile_object_source to emit a relocatable object",
                ),
            ),
            ExecutionMode::Interpret => Err(
                self.backend_not_ready(
                    source,
                    "E392",
                    "ExecutionMode::Interpret does not produce a JIT artifact",
                    "call Session::interpret_source to check and run on the interpreter",
                ),
            ),
            _ => Ok(source),
        }
    }

    /// An executable link is refused (`E397`) for targets that cannot be
    /// linked here; otherwise the file is handed back.
    pub fn executable_link_check(&self, file: SourceFile, target: &TargetTriple) -> (r: Result<
        SourceFile,
        SessionDiagnostics,
    >)
        ensures
            r is Ok <==> (crate::target::linux_with(
                target.arch_kind(),
                target.os_kind(),
                target.env_kind(),
                crate::target::TargetEnv::Gnu,
            ) || crate::target::linux_with(
                target.arch_kind(),
                target.os_kind(),
                target.env_kind(),
                crate::target::TargetEnv::Musl,
            )),
            r matches Ok(f) ==> f == file,
            r matches Err(d) ==> d.file == file && d.batch.items().len() == 1
                && d.batch.items()[0].code@ == "E397"@,
    {
        if target.supports_executable_link() {
            return Ok(file);
        }
        let mut m = owned("AOT executable link is not available for '");
        push_str(&mut m, target.as_str().as_str());
        push_str(&mut m, "' on this host (Stage 34 is object emit only)");
        let batch = crate::link::LinkError::new("E397", m).with_help(
            owned(
                "use Session::compile_object_source for Mach-O / COFF; link executables on the target OS or stick to linux-gnu / linux-musl",
            ),
        ).into_batch(self.options.error_limit);
        Err(SessionDiagnostics { file, batch })
    }

    /// The `E396` diagnostics when no runtime archive exists for a target.
    pub fn archive_unavailable(&self, file: SourceFile, target: &TargetTriple, reason: &str) -> (r:
        SessionDiagnostics)
        ensures
            r.file == file,
            r.batch.items().len() == 1,
            r.batch.items()[0].code@ == "E396"@,
            r.batch.items()[0].message@ == "runtime archive unavailable for '"@ + target.text_view()
                + "': "@ + reason@,
    {
        let mut m = owned("runtime archive unavailable for '");
        push_str(&mut m, target.as_str().as_str());
        push_str(&mut m, "': ");
        push_str(&mut m, reason);
        let batch = crate::link::LinkError::new("E396", m).with_help(
            owned(
                "rebuild yarrow-core with the target installed, or set YARROW_RUNTIME_AOT_ARCHIVE_<triple> to libyarrow_runtime_aot.a (see docs/RUNTIME.md)",
            ),
        ).into_batch(self.options.error_limit);
        SessionDiagnostics { file, batch }
    }
}

/// The closing line of a batch that hit its error limit.
pub open spec fn abort_line(count: nat, limit: usize) -> Seq<char> {
    "error: aborting due to "@ + crate::text::decimal_spec(count) + " previous errors (limit "@
        + crate::text::decimal_spec(limit as nat) + ")\n"@
}

/// The rendering of diagnostics `ds`, one after the other.
pub open spec fn batch_text(ds: Seq<Diagnostic>, file: SourceFile, color: bool) -> Seq<char>
    decreases ds.len(),
{
    if ds.len() == 0 {
        Seq::empty()
    } else {
        batch_text(ds.drop_last(), file, color) + render_spec(ds.last(), file, color)
    }
}

/// Render all diagnostics of one batch for one source file (diagnostics
/// without a path show the file's), then an abort line when the batch hit
/// its error limit.
pub fn render_batch(batch: &DiagnosticBatch, file: &SourceFile, color: bool) -> (r: String)
    requires
        file.wf(),
    ensures
        r@ == batch_text(batch.items(), *file, color) + if batch.spec_error_count() >= batch.spec_limit() {
            abort_line(batch.spec_error_count(), batch.spec_limit())
        } else {
            Seq::empty()
        },
{
    let mut out = String::new();
    let items = batch.iter();
    let mut i: usize = 0;
    assert(out@ =~= batch_text(items@.take(0), *file, color));
    while i < items.len()
        invariant
            file.wf(),
            0 <= i <= items@.len(),
            items@ == batch.items(),
            out@ == batch_text(items@.take(i as int), *file, color),
        decreases items@.len() - i,
    {
        let text = render(&items[i], file, color);
        push_str(&mut out, text.as_str());
        proof {
            assert(items@.take(i + 1).drop_last() =~= items@.take(i as int));
            assert(items@.take(i + 1).last() == items@[i as int]);
        }
        i += 1;
    }
    assert(items@.take(i as int) =~= items@);
    let ghost before = out@;
    if batch.is_at_limit() {
        push_str(&mut out, "error: aborting due to ");
        push_str(&mut out, decimal(batch.error_count() as u64).as_str());
        push_str(&mut out, " previous errors (limit ");
        push_str(&mut out, decimal(batch.limit() as u64).as_str());
        push_str(&mut out, ")\n");
        assert(out@ =~= before + abort_line(batch.spec_error_count(), batch.spec_limit()));
    } else {
        assert(out@ =~= before + Seq::<char>::empty());
    }
    out
}

} // verus!
