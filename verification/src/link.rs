//! Linking a program object and the runtime archive into an executable.
//!
//! A system linker (`ld` / `lld`) does the work; a C compiler is never used as
//! a compile or link driver, only (when present) to print where C runtime
//! objects live. Mach-O and Windows targets accept object emit only, so an
//! executable link for them is refused with `E397`.
//!
//! This module decides: which link flavour a target gets, the linker's
//! argument list, the search order for helper programs, and the errors the
//! link reports. Running programs and touching files is the caller's part.

use vstd::prelude::*;
use crate::diagnostics::span::span_at;
use crate::diagnostics::{views, Diagnostic, DiagnosticBatch, Severity, Span};
use crate::target::TargetTriple;
use crate::text::{chars_of, owned, push_str, str_eq, string_of_chars, trim_chars, trim_spec};

verus! {

/// Failure while locating the linker or the C runtime, or running the link.
#[derive(Debug)]
pub struct LinkError {
    pub code: &'static str,
    pub message: String,
    pub help: Option<String>,
    pub note: Option<String>,
}

pub open spec fn opt_view(s: Option<String>) -> Option<Seq<char>> {
    match s {
        Some(t) => Some(t@),
        None => None,
    }
}

impl LinkError {
    pub fn new(code: &'static str, message: String) -> (r: Self)
        ensures
            r.code@ == code@,
            r.message@ == message@,
            r.help is None,
            r.note is None,
    {
        LinkError { code, message, help: None, note: None }
    }

    pub fn with_help(self, help: String) -> (r: Self)
        ensures
            r.code == self.code,
            r.message == self.message,
            opt_view(r.help) == Some(help@),
            r.note == self.note,
    {
        LinkError { help: Some(help), ..self }
    }

    pub fn with_note(self, note: String) -> (r: Self)
        ensures
            r.code == self.code,
            r.message == self.message,
            r.help == self.help,
            opt_view(r.note) == Some(note@),
    {
        LinkError { note: Some(note), ..self }
    }

    /// A batch (with the given error limit) holding this error as one
    /// diagnostic: a primary label at the default span, then the note, then
    /// the help.
    pub fn into_batch(self, error_limit: usize) -> (r: DiagnosticBatch)
        ensures
            r.wf(),
            r.spec_limit() == if error_limit >= 1 { error_limit } else { 1 },
            r.items().len() == 1,
            r.items()[0].severity == Severity::Error,
            r.items()[0].code@ == self.code@,
            r.items()[0].message@ == self.message@,
            r.items()[0].labels@.len() == 1,
            r.items()[0].labels@[0].span == span_at(0, 0, 1, 1),
            r.items()[0].labels@[0].primary,
            r.items()[0].labels@[0].message@.len() == 0,
            views(r.items()[0].notes@) == match opt_view(self.note) {
                Some(n) => seq![n],
                None => Seq::<Seq<char>>::empty(),
            },
            views(r.items()[0].helps@) == match opt_view(self.help) {
                Some(h) => seq![h],
                None => Seq::<Seq<char>>::empty(),
            },
    {
        let mut batch = DiagnosticBatch::with_limit(error_limit);
        let mut diag = Diagnostic::error(owned(self.code), self.message).with_primary(
            Span::default(),
            String::new(),
        );
        if let Some(note) = self.note {
            diag = diag.with_note(note);
        }
        if let Some(help) = self.help {
            diag = diag.with_help(help);
        }
        proof {
            assert(views(diag.notes@) =~= match opt_view(self.note) {
                Some(n) => seq![n],
                None => Seq::<Seq<char>>::empty(),
            });
            assert(views(diag.helps@) =~= match opt_view(self.help) {
                Some(h) => seq![h],
                None => Seq::<Seq<char>>::empty(),
            });
        }
        batch.push(diag);
        batch
    }
}

/// How an executable is linked for a target.
#[derive(Debug, Clone, Copy, PartialEq, Eq, Structural)]
pub enum LinkFlavor {
    /// Dynamic glibc link (`-pie`, C runtime start files, `-lc`).
    LinuxGnu,
    /// Static musl link (`-static`, `crt1.o`, `libc.a`).
    LinuxMusl,
}

/// The flavour a target links with on a host, or the refusal.
pub fn link_route(target: &TargetTriple, host_is_linux_gnu: bool) -> (r: Result<LinkFlavor, LinkError>)
    ensures
        !host_is_linux_gnu ==> (r matches Err(e) && e.code@ == "E394"@ && e.message@
            == "AOT executable link is only supported on linux-gnu hosts"@),
        host_is_linux_gnu ==> match r {
            Ok(f) => (f == LinkFlavor::LinuxGnu && crate::target::linux_with(
                target.arch_kind(),
                target.os_kind(),
                target.env_kind(),
                crate::target::TargetEnv::Gnu,
            )) || (f == LinkFlavor::LinuxMusl && crate::target::linux_with(
                target.arch_kind(),
                target.os_kind(),
                target.env_kind(),
                crate::target::TargetEnv::Musl,
            )),
            Err(e) => e.code@ == "E397"@ && !crate::target::linux_with(
                target.arch_kind(),
                target.os_kind(),
                target.env_kind(),
                crate::target::TargetEnv::Gnu,
            ) && !crate::target::linux_with(
                target.arch_kind(),
                target.os_kind(),
                target.env_kind(),
                crate::target::TargetEnv::Musl,
            ),
        },
{
    if !host_is_linux_gnu {
        return Err(
            LinkError::new("E394", owned("AOT executable link is only supported on linux-gnu hosts"))
                .with_help(
                owned("use JIT (`ExecutionMode::Jit`) on this host, or link on a linux-gnu machine"),
            ),
        );
    }
    if target.is_linux_gnu() {
        return Ok(LinkFlavor::LinuxGnu);
    }
    if target.is_linux_musl() {
        return Ok(LinkFlavor::LinuxMusl);
    }
    if target.is_non_elf_object() {
        let mut m = owned("AOT executable link is not available for '");
        push_str(&mut m, target.as_str().as_str());
        push_str(&mut m, "' on this host (Stage 34 is object emit only)");
        return Err(
            LinkError::new("E397", m).with_help(
                owned(
                    "use Session::compile_object_source for Mach-O / COFF; link executables on the target OS or stick to linux-gnu / linux-musl",
                ),
            ),
        );
    }
    let mut m = owned("AOT executable link does not support target '");
    push_str(&mut m, target.as_str().as_str());
    push_str(&mut m, "'");
    Err(
        LinkError::new("E397", m).with_help(
            owned("use a linux-gnu or linux-musl triple (x86_64 or aarch64) or emit an object only"),
        ),
    )
}

/// The ELF emulation for a target, or the `E397` error when it has none.
pub fn require_emulation(target: &TargetTriple) -> (r: Result<&'static str, LinkError>)
    ensures
        match r {
            Ok(e) => target.elf_emulation_spec() == Some(e@),
            Err(err) => err.code@ == "E397"@ && target.elf_emulation_spec() is None && err.message@
                == "no ELF linker emulation for '"@ + target.text_view() + "'"@,
        },
{
    match target.elf_emulation() {
        Some(e) => Ok(e),
        None => {
            let mut m = owned("no ELF linker emulation for '");
            push_str(&mut m, target.as_str().as_str());
            push_str(&mut m, "'");
            Err(LinkError::new("E397", m))
        },
    }
}

/// C runtime files for a dynamic glibc link.
pub struct GnuCrtFiles {
    pub scrt1: String,
    pub crti: String,
    pub crtn: String,
    pub crtbegin: String,
    pub crtend: String,
    pub dynamic_linker: String,
    pub libgcc_a: Option<String>,
    pub lib_dirs: Vec<String>,
}

/// C runtime files for a static musl link.
pub struct MuslCrtFiles {
    pub crt1: String,
    pub crti: String,
    pub crtn: String,
    pub libgcc_a: Option<String>,
    pub lib_dirs: Vec<String>,
}

/// `-L dir` for each library directory, in order.
pub open spec fn lib_dir_args(dirs: Seq<Seq<char>>) -> Seq<Seq<char>>
    decreases dirs.len(),
{
    if dirs.len() == 0 {
        Seq::empty()
    } else {
        lib_dir_args(dirs.drop_last()) + seq!["-L"@, dirs.last()]
    }
}

pub open spec fn opt_arg(s: Option<Seq<char>>) -> Seq<Seq<char>> {
    match s {
        Some(a) => seq![a],
        None => Seq::empty(),
    }
}

/// The linker arguments of a dynamic glibc link.
pub open spec fn gnu_args_spec(
    out: Seq<char>,
    emulation: Seq<char>,
    obj: Seq<char>,
    archive: Seq<char>,
    crt: GnuCrtFiles,
) -> Seq<Seq<char>> {
    seq![
        "-o"@,
        out,
        "-pie"@,
        "--eh-frame-hdr"@,
        "-m"@,
        emulation,
        "-dynamic-linker"@,
        crt.dynamic_linker@,
        crt.scrt1@,
        crt.crti@,
        crt.crtbegin@,
        obj,
        "--whole-archive"@,
        archive,
        "--no-whole-archive"@,
    ] + lib_dir_args(views(crt.lib_dirs@)) + seq![
        "-lpthread"@,
        "-ldl"@,
        "-lm"@,
        "--push-state"@,
        "--as-needed"@,
        "-lgcc_s"@,
        "--pop-state"@,
        "-lc"@,
    ] + opt_arg(opt_view(crt.libgcc_a)) + seq![crt.crtend@, crt.crtn@]
}

/// The linker arguments of a static musl link.
pub open spec fn musl_args_spec(
    out: Seq<char>,
    emulation: Seq<char>,
    obj: Seq<char>,
    archive: Seq<char>,
    crt: MuslCrtFiles,
) -> Seq<Seq<char>> {
    seq![
        "-o"@,
        out,
        "-static"@,
        "--eh-frame-hdr"@,
        "-m"@,
        emulation,
        crt.crt1@,
        crt.crti@,
        obj,
        "--whole-archive"@,
        archive,
        "--no-whole-archive"@,
    ] + lib_dir_args(views(crt.lib_dirs@)) + seq!["-lpthread"@, "-ldl"@, "-lm"@, "-lc"@]
        + opt_arg(opt_view(crt.libgcc_a)) + seq![crt.crtn@]
}

fn push_arg(args: &mut Vec<String>, a: &str)
    ensures
        views(final(args)@) == views(old(args)@).push(a@),
{
    args.push(owned(a));
    proof {
        assert(views(args@) =~= views(old(args)@).push(a@));
    }
}

fn push_lib_dirs(args: &mut Vec<String>, dirs: &Vec<String>)
    ensures
        views(final(args)@) == views(old(args)@) + lib_dir_args(views(dirs@)),
{
    let mut i: usize = 0;
    while i < dirs.len()
        invariant
            0 <= i <= dirs@.len(),
            views(args@) == views(old(args)@) + lib_dir_args(views(dirs@.take(i as int))),
        decreases dirs@.len() - i,
    {
        push_arg(args, "-L");
        push_arg(args, dirs[i].as_str());
        proof {
            assert(views(dirs@.take(i + 1)).drop_last() =~= views(dirs@.take(i as int)));
            assert(views(args@) =~= views(old(args)@) + lib_dir_args(views(dirs@.take(i + 1))));
        }
        i += 1;
    }
    assert(dirs@.take(dirs@.len() as int) =~= dirs@);
}

fn push_opt(args: &mut Vec<String>, a: &Option<String>)
    ensures
        views(final(args)@) == views(old(args)@) + opt_arg(opt_view(*a)),
{
    if let Some(s) = a {
        push_arg(args, s.as_str());
    } else {
        assert(views(args@) =~= views(args@) + opt_arg(opt_view(*a)));
    }
}

/// Arguments for a dynamic glibc link of `obj` and `archive` into `out`.
pub fn gnu_link_args(out: &str, emulation: &str, obj: &str, archive: &str, crt: &GnuCrtFiles) -> (r:
    Vec<String>)
    ensures
        views(r@) == gnu_args_spec(out@, emulation@, obj@, archive@, *crt),
{
    let mut args: Vec<String> = Vec::new();
    push_arg(&mut args, "-o");
    push_arg(&mut args, out);
    push_arg(&mut args, "-pie");
    push_arg(&mut args, "--eh-frame-hdr");
    push_arg(&mut args, "-m");
    push_arg(&mut args, emulation);
    push_arg(&mut args, "-dynamic-linker");
    push_arg(&mut args, crt.dynamic_linker.as_str());
    push_arg(&mut args, crt.scrt1.as_str());
    push_arg(&mut args, crt.crti.as_str());
    push_arg(&mut args, crt.crtbegin.as_str());
    push_arg(&mut args, obj);
    // Pull all exports and runtime objects out of the archive.
    push_arg(&mut args, "--whole-archive");
    push_arg(&mut args, archive);
    push_arg(&mut args, "--no-whole-archive");
    let ghost head = views(args@);
    push_lib_dirs(&mut args, &crt.lib_dirs);
    let ghost mid = views(args@);
    push_arg(&mut args, "-lpthread");
    push_arg(&mut args, "-ldl");
    push_arg(&mut args, "-lm");
    push_arg(&mut args, "--push-state");
    push_arg(&mut args, "--as-needed");
    push_arg(&mut args, "-lgcc_s");
    push_arg(&mut args, "--pop-state");
    push_arg(&mut args, "-lc");
    let ghost tail = views(args@);
    push_opt(&mut args, &crt.libgcc_a);
    let ghost opt = views(args@);
    push_arg(&mut args, crt.crtend.as_str());
    push_arg(&mut args, crt.crtn.as_str());
    assert(views(args@) =~= gnu_args_spec(out@, emulation@, obj@, archive@, *crt));
    args
}

/// Arguments for a static musl link of `obj` and `archive` into `out`.
pub fn musl_link_args(out: &str, emulation: &str, obj: &str, archive: &str, crt: &MuslCrtFiles) -> (r:
    Vec<String>)
    ensures
        views(r@) == musl_args_spec(out@, emulation@, obj@, archive@, *crt),
{
    let mut args: Vec<String> = Vec::new();
    push_arg(&mut args, "-o");
    push_arg(&mut args, out);
    push_arg(&mut args, "-static");
    push_arg(&mut args, "--eh-frame-hdr");
    push_arg(&mut args, "-m");
    push_arg(&mut args, emulation);
    push_arg(&mut args, crt.crt1.as_str());
    push_arg(&mut args, crt.crti.as_str());
    push_arg(&mut args, obj);
    push_arg(&mut args, "--whole-archive");
    push_arg(&mut args, archive);
    push_arg(&mut args, "--no-whole-archive");
    push_lib_dirs(&mut args, &crt.lib_dirs);
    push_arg(&mut args, "-lpthread");
    push_arg(&mut args, "-ldl");
    push_arg(&mut args, "-lm");
    push_arg(&mut args, "-lc");
    push_opt(&mut args, &crt.libgcc_a);
    push_arg(&mut args, crt.crtn.as_str());
    assert(views(args@) =~= musl_args_spec(out@, emulation@, obj@, archive@, *crt));
    args
}

/// Each word that the `-L dir` pairs add is `-L` or one of the directories.
proof fn lemma_lib_dir_args_words(dirs: Seq<Seq<char>>)
    ensures
        forall|i: int|
            0 <= i < lib_dir_args(dirs).len() ==> #[trigger] lib_dir_args(dirs)[i] == "-L"@ || dirs.contains(
                lib_dir_args(dirs)[i],
            ),
    decreases dirs.len(),
{
    if dirs.len() > 0 {
        let rest = dirs.drop_last();
        lemma_lib_dir_args_words(rest);
        let prev = lib_dir_args(rest);
        assert forall|i: int| 0 <= i < lib_dir_args(dirs).len() implies #[trigger] lib_dir_args(dirs)[i] == "-L"@
            || dirs.contains(lib_dir_args(dirs)[i]) by {
            if i < prev.len() {
                if prev[i] != "-L"@ {
                    let k = choose|k: int| 0 <= k < rest.len() && rest[k] == prev[i];
                    assert(dirs[k] == prev[i]);
                }
            } else if i == prev.len() + 1 {
                assert(dirs[dirs.len() - 1] == dirs.last());
            }
        }
    }
}

/// What the caller hands to a musl link: the output, the emulation, the two
/// inputs and the C runtime files and directories.
pub open spec fn musl_input(
    s: Seq<char>,
    out: Seq<char>,
    emulation: Seq<char>,
    obj: Seq<char>,
    archive: Seq<char>,
    crt: MuslCrtFiles,
) -> bool {
    s == out || s == emulation || s == obj || s == archive || s == crt.crt1@ || s == crt.crti@ || s == crt.crtn@
        || opt_view(crt.libgcc_a) == Some(s) || views(crt.lib_dirs@).contains(s)
}

/// What the caller hands to a glibc link.
pub open spec fn gnu_input(
    s: Seq<char>,
    out: Seq<char>,
    emulation: Seq<char>,
    obj: Seq<char>,
    archive: Seq<char>,
    crt: GnuCrtFiles,
) -> bool {
    s == out || s == emulation || s == obj || s == archive || s == crt.dynamic_linker@ || s == crt.scrt1@ || s
        == crt.crti@ || s == crt.crtbegin@ || s == crt.crtend@ || s == crt.crtn@ || opt_view(crt.libgcc_a) == Some(
        s,
    ) || views(crt.lib_dirs@).contains(s)
}

spec fn musl_word(s: Seq<char>) -> bool {
    s == "-o"@ || s == "-static"@ || s == "--eh-frame-hdr"@ || s == "-m"@ || s == "--whole-archive"@ || s
        == "--no-whole-archive"@ || s == "-L"@ || s == "-lpthread"@ || s == "-ldl"@ || s == "-lm"@ || s == "-lc"@
}

spec fn gnu_word(s: Seq<char>) -> bool {
    s == "-o"@ || s == "-pie"@ || s == "--eh-frame-hdr"@ || s == "-m"@ || s == "-dynamic-linker"@ || s
        == "--whole-archive"@ || s == "--no-whole-archive"@ || s == "-L"@ || s == "-lpthread"@ || s == "-ldl"@ || s
        == "-lm"@ || s == "--push-state"@ || s == "--as-needed"@ || s == "-lgcc_s"@ || s == "--pop-state"@ || s
        == "-lc"@
}

/// Every word of a musl command line is a fixed flag or something the caller
/// handed in.
proof fn lemma_musl_words(out: Seq<char>, emulation: Seq<char>, obj: Seq<char>, archive: Seq<char>, crt: MuslCrtFiles)
    ensures
        forall|i: int|
            0 <= i < musl_args_spec(out, emulation, obj, archive, crt).len() ==> musl_word(
                #[trigger] musl_args_spec(out, emulation, obj, archive, crt)[i],
            ) || musl_input(musl_args_spec(out, emulation, obj, archive, crt)[i], out, emulation, obj, archive, crt),
{
    let dirs = views(crt.lib_dirs@);
    lemma_lib_dir_args_words(dirs);
    let h = seq![
        "-o"@,
        out,
        "-static"@,
        "--eh-frame-hdr"@,
        "-m"@,
        emulation,
        crt.crt1@,
        crt.crti@,
        obj,
        "--whole-archive"@,
        archive,
        "--no-whole-archive"@,
    ];
    let l = lib_dir_args(dirs);
    let t = seq!["-lpthread"@, "-ldl"@, "-lm"@, "-lc"@];
    let o = opt_arg(opt_view(crt.libgcc_a));
    let c = seq![crt.crtn@];
    let args = musl_args_spec(out, emulation, obj, archive, crt);
    assert(args == h + l + t + o + c);
    assert forall|i: int| 0 <= i < args.len() implies musl_word(#[trigger] args[i]) || musl_input(
        args[i],
        out,
        emulation,
        obj,
        archive,
        crt,
    ) by {
        if i < h.len() {
            assert(args[i] == h[i]);
        } else if i < h.len() + l.len() {
            assert(args[i] == l[i - h.len()]);
        } else if i < h.len() + l.len() + t.len() {
            assert(args[i] == t[i - h.len() - l.len()]);
        } else if i < h.len() + l.len() + t.len() + o.len() {
            assert(args[i] == o[i - h.len() - l.len() - t.len()]);
        } else {
            assert(args[i] == c[0]);
        }
    }
}

/// Every word of a glibc command line is a fixed flag or something the caller
/// handed in.
proof fn lemma_gnu_words(out: Seq<char>, emulation: Seq<char>, obj: Seq<char>, archive: Seq<char>, crt: GnuCrtFiles)
    ensures
        forall|i: int|
            0 <= i < gnu_args_spec(out, emulation, obj, archive, crt).len() ==> gnu_word(
                #[trigger] gnu_args_spec(out, emulation, obj, archive, crt)[i],
            ) || gnu_input(gnu_args_spec(out, emulation, obj, archive, crt)[i], out, emulation, obj, archive, crt),
{
    let dirs = views(crt.lib_dirs@);
    lemma_lib_dir_args_words(dirs);
    let h = seq![
        "-o"@,
        out,
        "-pie"@,
        "--eh-frame-hdr"@,
        "-m"@,
        emulation,
        "-dynamic-linker"@,
        crt.dynamic_linker@,
        crt.scrt1@,
        crt.crti@,
        crt.crtbegin@,
        obj,
        "--whole-archive"@,
        archive,
        "--no-whole-archive"@,
    ];
    let l = lib_dir_args(dirs);
    let t = seq![
        "-lpthread"@,
        "-ldl"@,
        "-lm"@,
        "--push-state"@,
        "--as-needed"@,
        "-lgcc_s"@,
        "--pop-state"@,
        "-lc"@,
    ];
    let o = opt_arg(opt_view(crt.libgcc_a));
    let c = seq![crt.crtend@, crt.crtn@];
    let args = gnu_args_spec(out, emulation, obj, archive, crt);
    assert(args == h + l + t + o + c);
    assert forall|i: int| 0 <= i < args.len() implies gnu_word(#[trigger] args[i]) || gnu_input(
        args[i],
        out,
        emulation,
        obj,
        archive,
        crt,
    ) by {
        if i < h.len() {
            assert(args[i] == h[i]);
        } else if i < h.len() + l.len() {
            assert(args[i] == l[i - h.len()]);
        } else if i < h.len() + l.len() + t.len() {
            assert(args[i] == t[i - h.len() - l.len()]);
        } else if i < h.len() + l.len() + t.len() + o.len() {
            assert(args[i] == o[i - h.len() - l.len() - t.len()]);
        } else {
            assert(args[i] == c[i - h.len() - l.len() - t.len() - o.len()]);
        }
    }
}

/// A musl link is static: the command line names the output first, asks for
/// `-static` right after it, and takes the program object, the runtime
/// archive and the C runtime start files; `-pie` and `-dynamic-linker` occur
/// in it only where the caller handed in a path spelled so.
pub proof fn lemma_musl_link_is_static(
    out: Seq<char>,
    emulation: Seq<char>,
    obj: Seq<char>,
    archive: Seq<char>,
    crt: MuslCrtFiles,
)
    ensures
        musl_args_spec(out, emulation, obj, archive, crt).len() >= 3,
        musl_args_spec(out, emulation, obj, archive, crt)[0] == "-o"@,
        musl_args_spec(out, emulation, obj, archive, crt)[1] == out,
        musl_args_spec(out, emulation, obj, archive, crt)[2] == "-static"@,
        musl_args_spec(out, emulation, obj, archive, crt).contains("-static"@),
        musl_args_spec(out, emulation, obj, archive, crt).contains(obj),
        musl_args_spec(out, emulation, obj, archive, crt).contains(archive),
        musl_args_spec(out, emulation, obj, archive, crt).contains(crt.crt1@),
        musl_args_spec(out, emulation, obj, archive, crt).contains(crt.crtn@),
        musl_args_spec(out, emulation, obj, archive, crt).contains("-pie"@) ==> musl_input(
            "-pie"@,
            out,
            emulation,
            obj,
            archive,
            crt,
        ),
        musl_args_spec(out, emulation, obj, archive, crt).contains("-dynamic-linker"@) ==> musl_input(
            "-dynamic-linker"@,
            out,
            emulation,
            obj,
            archive,
            crt,
        ),
{
    let args = musl_args_spec(out, emulation, obj, archive, crt);
    lemma_musl_words(out, emulation, obj, archive, crt);
    assert(args[2] == "-static"@);
    assert(args[8] == obj);
    assert(args[10] == archive);
    assert(args[6] == crt.crt1@);
    assert(args[args.len() - 1] == crt.crtn@);
    reveal_strlit("-pie");
    reveal_strlit("-dynamic-linker");
    reveal_strlit("-o");
    reveal_strlit("-static");
    reveal_strlit("--eh-frame-hdr");
    reveal_strlit("-m");
    reveal_strlit("--whole-archive");
    reveal_strlit("--no-whole-archive");
    reveal_strlit("-L");
    reveal_strlit("-lpthread");
    reveal_strlit("-ldl");
    reveal_strlit("-lm");
    reveal_strlit("-lc");
    assert("-o"@.len() == 2 && "-m"@.len() == 2 && "-L"@.len() == 2 && "-lm"@.len() == 3 && "-lc"@.len() == 3);
    assert("-static"@.len() == 7 && "-lpthread"@.len() == 9 && "--eh-frame-hdr"@.len() == 14);
    assert("--no-whole-archive"@.len() == 18 && "--whole-archive"@.len() == 15);
    assert("-pie"@.len() == 4 && "-ldl"@.len() == 4 && "-pie"@[1] != "-ldl"@[1]);
    assert("-dynamic-linker"@.len() == 15 && "-dynamic-linker"@[1] != "--whole-archive"@[1]);
    assert(!musl_word("-pie"@));
    assert(!musl_word("-dynamic-linker"@));
}

/// A glibc link is dynamic and position independent: the command line names
/// the output first, asks for `-pie` right after it, names the dynamic
/// linker right after `-dynamic-linker`, and takes the program object and
/// the runtime archive; `-static` occurs in it only where the caller handed
/// in a path spelled so.
pub proof fn lemma_gnu_link_is_dynamic(
    out: Seq<char>,
    emulation: Seq<char>,
    obj: Seq<char>,
    archive: Seq<char>,
    crt: GnuCrtFiles,
)
    ensures
        gnu_args_spec(out, emulation, obj, archive, crt).len() >= 8,
        gnu_args_spec(out, emulation, obj, archive, crt)[0] == "-o"@,
        gnu_args_spec(out, emulation, obj, archive, crt)[1] == out,
        gnu_args_spec(out, emulation, obj, archive, crt)[2] == "-pie"@,
        gnu_args_spec(out, emulation, obj, archive, crt)[6] == "-dynamic-linker"@,
        gnu_args_spec(out, emulation, obj, archive, crt)[7] == crt.dynamic_linker@,
        gnu_args_spec(out, emulation, obj, archive, crt).contains(obj),
        gnu_args_spec(out, emulation, obj, archive, crt).contains(archive),
        gnu_args_spec(out, emulation, obj, archive, crt).contains("-static"@) ==> gnu_input(
            "-static"@,
            out,
            emulation,
            obj,
            archive,
            crt,
        ),
{
    let args = gnu_args_spec(out, emulation, obj, archive, crt);
    lemma_gnu_words(out, emulation, obj, archive, crt);
    assert(args[11] == obj);
    assert(args[13] == archive);
    reveal_strlit("-static");
    reveal_strlit("-o");
    reveal_strlit("-pie");
    reveal_strlit("--eh-frame-hdr");
    reveal_strlit("-m");
    reveal_strlit("-dynamic-linker");
    reveal_strlit("--whole-archive");
    reveal_strlit("--no-whole-archive");
    reveal_strlit("-L");
    reveal_strlit("-lpthread");
    reveal_strlit("-ldl");
    reveal_strlit("-lm");
    reveal_strlit("--push-state");
    reveal_strlit("--as-needed");
    reveal_strlit("-lgcc_s");
    reveal_strlit("--pop-state");
    reveal_strlit("-lc");
    assert("-o"@.len() == 2 && "-m"@.len() == 2 && "-L"@.len() == 2 && "-lm"@.len() == 3 && "-lc"@.len() == 3);
    assert("-pie"@.len() == 4 && "-ldl"@.len() == 4 && "-lpthread"@.len() == 9 && "--eh-frame-hdr"@.len() == 14);
    assert("-dynamic-linker"@.len() == 15 && "--whole-archive"@.len() == 15 && "--no-whole-archive"@.len() == 18);
    assert("--push-state"@.len() == 12 && "--as-needed"@.len() == 11 && "--pop-state"@.len() == 11);
    assert("-static"@.len() == 7 && "-lgcc_s"@.len() == 7 && "-static"@[1] != "-lgcc_s"@[1]);
    assert(!gnu_word("-static"@));
}

/// Linker programs tried in order (never a C compiler).
pub fn linker_candidates() -> (r: Vec<&'static str>)
    ensures
        r@.len() == 5,
        r@[0]@ == "ld"@,
        r@[1]@ == "ld.lld"@,
        r@[2]@ == "lld"@,
        r@[3]@ == "ld.bfd"@,
        r@[4]@ == "ld.gold"@,
{
    vec!["ld", "ld.lld", "lld", "ld.bfd", "ld.gold"]
}

/// File names of C compiler drivers, which are never used as the linker.
pub open spec fn is_driver_name(s: Seq<char>) -> bool {
    s == "cc"@ || s == "gcc"@ || s == "clang"@ || s == "c++"@ || s == "g++"@ || s == "clang++"@
}

pub fn is_compiler_driver(base: &str) -> (r: bool)
    ensures
        r == is_driver_name(base@),
{
    str_eq(base, "cc") || str_eq(base, "gcc") || str_eq(base, "clang") || str_eq(base, "c++")
        || str_eq(base, "g++") || str_eq(base, "clang++")
}

/// The error when no linker program was found.
pub fn linker_not_found() -> (r: LinkError)
    ensures
        r.code@ == "E394"@,
        r.message@ == "system linker not found (`ld` / `lld`)"@,
        r.help is Some,
{
    LinkError::new("E394", owned("system linker not found (`ld` / `lld`)")).with_help(
        owned(
            "install a system linker such as binutils `ld` or LLVM `lld` (a C compiler is not required)",
        ),
    )
}

/// The error when the linker program could not be started.
pub fn linker_not_started(linker: &str, reason: &str) -> (r: LinkError)
    ensures
        r.code@ == "E395"@,
        r.message@ == "failed to invoke linker '"@ + linker@ + "': "@ + reason@,
        r.help is Some,
{
    let mut m = owned("failed to invoke linker '");
    push_str(&mut m, linker);
    push_str(&mut m, "': ");
    push_str(&mut m, reason);
    LinkError::new("E395", m).with_help(
        owned("install a system linker such as `ld` or `lld` (not a C compiler)"),
    )
}

/// What a failed link reports as its cause: the trimmed error output, else
/// the trimmed standard output, else the exit status.
pub open spec fn failure_detail(stderr: Seq<char>, stdout: Seq<char>, status: Seq<char>) -> Seq<char> {
    if trim_spec(stderr).len() > 0 {
        trim_spec(stderr)
    } else if trim_spec(stdout).len() > 0 {
        trim_spec(stdout)
    } else {
        "linker exited with status "@ + status
    }
}

fn trimmed(s: &str) -> (r: String)
    ensures
        r@ == trim_spec(s@),
{
    string_of_chars(&trim_chars(&chars_of(s)))
}

/// The `E395` error of a link that ran and failed: the cause, a help line
/// that depends on the kind of target, and a note naming linker and target.
pub fn link_failed(
    stderr: &str,
    stdout: &str,
    status: &str,
    is_host: bool,
    is_musl: bool,
    target: &str,
    emulation: &str,
    linker: &str,
) -> (r: LinkError)
    ensures
        r.code@ == "E395"@,
        r.message@ == "link failed: "@ + failure_detail(stderr@, stdout@, status@),
        opt_view(r.help) == Some(
            if is_host {
                "need a system linker (`ld` / `lld`) and host libc/CRT; not a C toolchain compile step"@
            } else if is_musl {
                "musl link for '"@ + target@
                    + "' needs matching CRT / libc.a (set YARROW_AOT_SYSROOT or YARROW_AOT_CRT_DIR to a musl prefix; see docs/RUNTIME.md)"@
            } else {
                "cross-link for '"@ + target@ + "' needs a linker that supports `-m "@ + emulation@
                    + "` and matching CRT (set YARROW_AOT_SYSROOT or YARROW_AOT_CRT_DIR; see docs/RUNTIME.md)"@
            },
        ),
        opt_view(r.note) == Some("linker: "@ + linker@ + "; target: "@ + target@),
{
    let err = trimmed(stderr);
    let out = trimmed(stdout);
    let detail = if chars_of(err.as_str()).len() > 0 {
        err
    } else if chars_of(out.as_str()).len() > 0 {
        out
    } else {
        let mut d = owned("linker exited with status ");
        push_str(&mut d, status);
        d
    };
    let help = if is_host {
        owned("need a system linker (`ld` / `lld`) and host libc/CRT; not a C toolchain compile step")
    } else if is_musl {
        let mut h = owned("musl link for '");
        push_str(&mut h, target);
        push_str(
            &mut h,
            "' needs matching CRT / libc.a (set YARROW_AOT_SYSROOT or YARROW_AOT_CRT_DIR to a musl prefix; see docs/RUNTIME.md)",
        );
        h
    } else {
        let mut h = owned("cross-link for '");
        push_str(&mut h, target);
        push_str(&mut h, "' needs a linker that supports `-m ");
        push_str(&mut h, emulation);
        push_str(
            &mut h,
            "` and matching CRT (set YARROW_AOT_SYSROOT or YARROW_AOT_CRT_DIR; see docs/RUNTIME.md)",
        );
        h
    };
    let mut m = owned("link failed: ");
    push_str(&mut m, detail.as_str());
    let mut note = owned("linker: ");
    push_str(&mut note, linker);
    push_str(&mut note, "; target: ");
    push_str(&mut note, target);
    LinkError::new("E395", m).with_help(help).with_note(note)
}

/// The error when the linker left no output.
pub fn empty_executable() -> (r: LinkError)
    ensures
        r.code@ == "E395"@,
        r.message@ == "linker produced an empty executable"@,
{
    LinkError::new("E395", owned("linker produced an empty executable"))
}

/// File names joined with ` / `.
pub open spec fn joined(names: Seq<Seq<char>>) -> Seq<char>
    decreases names.len(),
{
    if names.len() == 0 {
        Seq::empty()
    } else if names.len() == 1 {
        names[0]
    } else {
        joined(names.drop_last()) + " / "@ + names.last()
    }
}

fn join_names(names: &Vec<String>) -> (r: String)
    ensures
        r@ == joined(views(names@)),
{
    let mut out = String::new();
    let mut i: usize = 0;
    while i < names.len()
        invariant
            0 <= i <= names@.len(),
            out@ == joined(views(names@.take(i as int))),
        decreases names@.len() - i,
    {
        if i > 0 {
            push_str(&mut out, " / ");
        }
        push_str(&mut out, names[i].as_str());
        proof {
            let t = views(names@.take(i + 1));
            assert(t.drop_last() =~= views(names@.take(i as int)));
            assert(out@ =~= joined(t));
        }
        i += 1;
    }
    assert(names@.take(names@.len() as int) =~= names@);
    out
}

/// The `E394` error when none of the file names tried (the wanted one,
/// then its alternatives) was found; the help depends on the kind of target.
pub fn missing_crt(target: &str, tried: &Vec<String>, is_host: bool, is_musl: bool) -> (r: LinkError)
    ensures
        r.code@ == "E394"@,
        r.message@ == "missing CRT object for '"@ + target@ + "' ("@ + joined(views(tried@)) + ")"@,
        opt_view(r.help) == Some(
            if is_host {
                "need host libc/CRT objects for `ld` (on NixOS: a stdenv with glibc). A C compiler is only used to locate paths, not to compile"@
            } else if is_musl {
                "missing musl CRT for '"@ + target@
                    + "'. Set YARROW_AOT_SYSROOT to a musl sysroot/prefix containing lib/"@ + joined(
                    views(tried@),
                ) + ", or YARROW_AOT_CRT_DIR to that lib directory (see docs/RUNTIME.md)"@
            } else {
                "missing CRT for cross target '"@ + target@
                    + "'. Set YARROW_AOT_SYSROOT to a sysroot containing usr/lib, or YARROW_AOT_CRT_DIR to a directory with "@
                    + joined(views(tried@)) + ", or install a matching cross toolchain"@
            },
        ),
{
    let names = join_names(tried);
    let hint = if is_host {
        owned(
            "need host libc/CRT objects for `ld` (on NixOS: a stdenv with glibc). A C compiler is only used to locate paths, not to compile",
        )
    } else if is_musl {
        let mut h = owned("missing musl CRT for '");
        push_str(&mut h, target);
        push_str(&mut h, "'. Set YARROW_AOT_SYSROOT to a musl sysroot/prefix containing lib/");
        push_str(&mut h, names.as_str());
        push_str(&mut h, ", or YARROW_AOT_CRT_DIR to that lib directory (see docs/RUNTIME.md)");
        h
    } else {
        let mut h = owned("missing CRT for cross target '");
        push_str(&mut h, target);
        push_str(
            &mut h,
            "'. Set YARROW_AOT_SYSROOT to a sysroot containing usr/lib, or YARROW_AOT_CRT_DIR to a directory with ",
        );
        push_str(&mut h, names.as_str());
        push_str(&mut h, ", or install a matching cross toolchain");
        h
    };
    let mut m = owned("missing CRT object for '");
    push_str(&mut m, target);
    push_str(&mut m, "' (");
    push_str(&mut m, names.as_str());
    push_str(&mut m, ")");
    LinkError::new("E394", m).with_help(hint)
}

/// The programs asked for a C runtime file's path, in order, each with its
/// extra arguments: for a cross target the prefixed cross compilers, then
/// `clang` and `cc` with `--target=`; then plain `cc` and `gcc`.
pub open spec fn driver_names(target: Seq<char>, is_host: bool) -> Seq<Seq<char>> {
    if is_host {
        seq!["cc"@, "gcc"@]
    } else {
        seq![
            target + "-gcc"@,
            target + "-cc"@,
            "aarch64-linux-gnu-gcc"@,
            "aarch64-unknown-linux-gnu-gcc"@,
            "x86_64-linux-gnu-gcc"@,
            "musl-gcc"@,
            "x86_64-linux-musl-gcc"@,
            "x86_64-unknown-linux-musl-gcc"@,
            "aarch64-linux-musl-gcc"@,
            "aarch64-unknown-linux-musl-gcc"@,
            "clang"@,
            "cc"@,
            "cc"@,
            "gcc"@,
        ]
    }
}

/// A driver to ask, and the arguments that go before `-print-file-name=`.
pub struct FileNameDriver {
    pub program: String,
    pub extra: Vec<String>,
}

fn driver(program: String, extra: Vec<String>) -> (r: FileNameDriver)
    ensures
        r.program@ == program@,
        views(r.extra@) == views(extra@),
{
    FileNameDriver { program, extra }
}

/// The drivers `print_file_name` asks, in order (see [`driver_names`]);
/// `clang` and `cc` get `--target=<triple>` for a cross target.
pub fn file_name_drivers(target: &str, is_host: bool) -> (r: Vec<FileNameDriver>)
    ensures
        r@.len() == driver_names(target@, is_host).len(),
        forall|i: int| 0 <= i < r@.len() ==> (#[trigger] r@[i]).program@ == driver_names(target@, is_host)[i],
        forall|i: int|
            0 <= i < r@.len() ==> views((#[trigger] r@[i]).extra@) == if !is_host && (i == 10 || i == 11) {
                seq!["--target="@ + target@]
            } else {
                Seq::<Seq<char>>::empty()
            },
{
    let mut out: Vec<FileNameDriver> = Vec::new();
    if !is_host {
        let mut a = owned(target);
        push_str(&mut a, "-gcc");
        out.push(driver(a, Vec::new()));
        let mut b = owned(target);
        push_str(&mut b, "-cc");
        out.push(driver(b, Vec::new()));
        out.push(driver(owned("aarch64-linux-gnu-gcc"), Vec::new()));
        out.push(driver(owned("aarch64-unknown-linux-gnu-gcc"), Vec::new()));
        out.push(driver(owned("x86_64-linux-gnu-gcc"), Vec::new()));
        out.push(driver(owned("musl-gcc"), Vec::new()));
        out.push(driver(owned("x86_64-linux-musl-gcc"), Vec::new()));
        out.push(driver(owned("x86_64-unknown-linux-musl-gcc"), Vec::new()));
        out.push(driver(owned("aarch64-linux-musl-gcc"), Vec::new()));
        out.push(driver(owned("aarch64-unknown-linux-musl-gcc"), Vec::new()));
        let mut t1 = owned("--target=");
        push_str(&mut t1, target);
        let mut t2 = owned("--target=");
        push_str(&mut t2, target);
        out.push(driver(owned("clang"), vec![t1]));
        out.push(driver(owned("cc"), vec![t2]));
    }
    out.push(driver(owned("cc"), Vec::new()));
    out.push(driver(owned("gcc"), Vec::new()));
    proof {
        assert forall|i: int| 0 <= i < out@.len() implies views((#[trigger] out@[i]).extra@) == if !is_host
            && (i == 10 || i == 11) {
            seq!["--target="@ + target@]
        } else {
            Seq::<Seq<char>>::empty()
        } by {
            assert(views(out@[i].extra@) =~= if !is_host && (i == 10 || i == 11) {
                seq!["--target="@ + target@]
            } else {
                Seq::<Seq<char>>::empty()
            });
        }
    }
    out
}

/// The `-print-file-name=` argument for a file name.
pub fn print_file_name_arg(name: &str) -> (r: String)
    ensures
        r@ == "-print-file-name="@ + name@,
{
    let mut a = owned("-print-file-name=");
    push_str(&mut a, name);
    a
}

/// What a driver printed, as a candidate path: the trimmed output, unless it
/// is empty or just the name asked for (the driver's way of saying "not found").
pub fn printed_path(printed: &str, name: &str) -> (r: Option<String>)
    ensures
        match r {
            Some(p) => p@ == trim_spec(printed@) && trim_spec(printed@).len() > 0 && trim_spec(printed@)
                != name@,
            None => trim_spec(printed@).len() == 0 || trim_spec(printed@) == name@,
        },
{
    let p = trimmed(printed);
    if chars_of(p.as_str()).len() == 0 || str_eq(p.as_str(), name) {
        None
    } else {
        Some(p)
    }
}

/// Append `dir` to the library directories unless it is already there.
pub fn push_lib_dir(dirs: &mut Vec<String>, dir: String)
    ensures
        views(old(dirs)@).contains(dir@) ==> views(final(dirs)@) == views(old(dirs)@),
        !views(old(dirs)@).contains(dir@) ==> views(final(dirs)@) == views(old(dirs)@).push(dir@),
{
    let mut i: usize = 0;
    while i < dirs.len()
        invariant
            0 <= i <= dirs@.len(),
            dirs@ == old(dirs)@,
            forall|j: int| 0 <= j < i ==> (#[trigger] dirs@[j])@ != dir@,
        decreases dirs@.len() - i,
    {
        if str_eq(dirs[i].as_str(), dir.as_str()) {
            assert(views(dirs@)[i as int] == dir@);
            return;
        }
        i += 1;
    }
    proof {
        assert forall|j: int| 0 <= j < views(dirs@).len() implies views(dirs@)[j] != dir@ by {
            assert(views(dirs@)[j] == dirs@[j]@);
        }
    }
    dirs.push(dir);
    proof {
        assert(views(dirs@) =~= views(old(dirs)@).push(dir@));
    }
}

} // verus!
