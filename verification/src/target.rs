//! Ahead-of-time / object target triples.
//!
//! Host linux-gnu remains the default. Supported classes: linux-gnu and
//! linux-musl on `x86_64` and `aarch64`, `x86_64-pc-windows-gnu` (COFF object
//! emit) and `*-apple-darwin` (Mach-O object emit); executable link for the
//! last two stays out of scope on linux hosts. Unsupported triples fail with
//! a `TargetError` (diagnostic `E397`), never a panic.
//!
//! Parsing and printing triples is `target_lexicon`'s work; which triples
//! this project accepts, and what each needs for linking, is decided here
//! from the printed components.

use vstd::prelude::*;
use std::str::FromStr;
use crate::text::{chars_of, owned, push_char, push_str, str_eq, string_of_chars, trim_chars, trim_spec};

verus! {

#[verifier::external_type_specification]
#[verifier::external_body]
pub struct ExTriple(target_lexicon::Triple);

/// What `target_lexicon` makes of a triple string: on success the printed
/// triple and its printed architecture, operating system and environment;
/// on failure the printed parse error.
pub uninterp spec fn lexicon_triple(s: Seq<char>) -> Result<
    (Seq<char>, Seq<char>, Seq<char>, Seq<char>),
    Seq<char>,
>;

/// A parsed triple with the printed forms of it and of its components.
pub struct TripleParts {
    pub triple: target_lexicon::Triple,
    pub text: String,
    pub arch: String,
    pub os: String,
    pub env: String,
}

/// `Triple::from_str`, with the `Display` text of the triple, of its
/// architecture, operating system and environment, or of the parse error.
/// The result depends on the string alone and is named `lexicon_triple`.
#[verifier::external_body]
fn lexicon_parse(s: &str) -> (r: Result<TripleParts, String>)
    ensures
        match (r, lexicon_triple(s@)) {
            (Ok(p), Ok(q)) => p.text@ == q.0 && p.arch@ == q.1 && p.os@ == q.2 && p.env@ == q.3,
            (Err(e), Err(m)) => e@ == m,
            _ => false,
        },
{
    match target_lexicon::Triple::from_str(s) {
        Ok(t) => {
            let (text, arch) = (t.to_string(), t.architecture.to_string());
            let (os, env) = (t.operating_system.to_string(), t.environment.to_string());
            Ok(TripleParts { triple: t, text, arch, os, env })
        },
        Err(e) => Err(e.to_string()),
    }
}

/// `Triple::host()`, with the `Display` text of it and of its components.
/// The host is a property of the machine the crate was built for, so
/// nothing is stated of the result.
#[verifier::external_body]
fn lexicon_host() -> (r: TripleParts) {
    let t = target_lexicon::Triple::host();
    let (text, arch) = (t.to_string(), t.architecture.to_string());
    let (os, env) = (t.operating_system.to_string(), t.environment.to_string());
    TripleParts { triple: t, text, arch, os, env }
}

/// `Triple::clone`. Nothing is stated of the result beyond its type.
#[verifier::external_body]
fn triple_clone(t: &target_lexicon::Triple) -> (r: target_lexicon::Triple) {
    t.clone()
}

/// `cranelift_codegen::isa::lookup` on a target's triple: `Ok` when this
/// build of Cranelift has a code generator for it, else the printed lookup
/// error. A target's architecture text is its triple's architecture printed
/// (see `from_parts`). The lookup goes by the architecture alone; this crate
/// builds Cranelift with its `x86` and `arm64` features, so `x86_64` and
/// plain `aarch64` always have one. The `aarch64` builder asserts a
/// little-endian architecture, so `aarch64_be` is left out: there the
/// lookup panics. Other architectures give `Ok` or an error, which is not
/// stated.
#[verifier::external_body]
fn isa_lookup(t: &TargetTriple) -> (r: Result<(), String>)
    requires
        t.arch_text_view() != "aarch64_be"@,
    ensures
        t.arch_text_view() == "x86_64"@ || t.arch_text_view() == "aarch64"@ ==> r is Ok,
{
    match cranelift_codegen::isa::lookup(t.triple.clone()) {
        Ok(_) => Ok(()),
        Err(e) => Err(e.to_string()),
    }
}

/// Architecture classes the project distinguishes.
#[derive(Debug, Clone, Copy, PartialEq, Eq, Structural)]
pub enum TargetArch {
    X86_64,
    /// Little-endian `aarch64`.
    Aarch64,
    Other,
}

/// Operating-system classes the project distinguishes.
#[derive(Debug, Clone, Copy, PartialEq, Eq, Structural)]
pub enum TargetOs {
    Linux,
    Windows,
    /// `darwin` or `macosx`, with or without a deployment version.
    Darwin,
    Other,
}

/// Environment classes the project distinguishes.
#[derive(Debug, Clone, Copy, PartialEq, Eq, Structural)]
pub enum TargetEnv {
    Gnu,
    Musl,
    Other,
}

pub open spec fn arch_class(s: Seq<char>) -> TargetArch {
    if s == "x86_64"@ {
        TargetArch::X86_64
    } else if s == "aarch64"@ {
        TargetArch::Aarch64
    } else {
        TargetArch::Other
    }
}

pub open spec fn os_class(s: Seq<char>) -> TargetOs {
    if s == "linux"@ {
        TargetOs::Linux
    } else if s == "windows"@ {
        TargetOs::Windows
    } else if (s.len() >= 6 && s.take(6) == "darwin"@) || (s.len() >= 6 && s.take(6) == "macosx"@) {
        TargetOs::Darwin
    } else {
        TargetOs::Other
    }
}

pub open spec fn env_class(s: Seq<char>) -> TargetEnv {
    if s == "gnu"@ {
        TargetEnv::Gnu
    } else if s == "musl"@ {
        TargetEnv::Musl
    } else {
        TargetEnv::Other
    }
}

fn classify_arch(s: &str) -> (r: TargetArch)
    ensures
        r == arch_class(s@),
{
    if str_eq(s, "x86_64") {
        TargetArch::X86_64
    } else if str_eq(s, "aarch64") {
        TargetArch::Aarch64
    } else {
        TargetArch::Other
    }
}

fn starts_with6(cs: &Vec<char>, p: &str) -> (r: bool)
    ensures
        r == (cs@.len() >= 6 && cs@.take(6) == p@),
{
    if cs.len() < 6 {
        return false;
    }
    let head = crate::text::slice_chars(cs, 0, 6);
    let h = string_of_chars(&head);
    assert(head@ == cs@.take(6));
    str_eq(h.as_str(), p)
}

fn classify_os(s: &str) -> (r: TargetOs)
    ensures
        r == os_class(s@),
{
    if str_eq(s, "linux") {
        TargetOs::Linux
    } else if str_eq(s, "windows") {
        TargetOs::Windows
    } else {
        let cs = chars_of(s);
        if starts_with6(&cs, "darwin") || starts_with6(&cs, "macosx") {
            TargetOs::Darwin
        } else {
            TargetOs::Other
        }
    }
}

fn classify_env(s: &str) -> (r: TargetEnv)
    ensures
        r == env_class(s@),
{
    if str_eq(s, "gnu") {
        TargetEnv::Gnu
    } else if str_eq(s, "musl") {
        TargetEnv::Musl
    } else {
        TargetEnv::Other
    }
}

/// Canonical target for object emit and executable link.
pub struct TargetTriple {
    triple: target_lexicon::Triple,
    text: String,
    arch_name: String,
    os_name: String,
    env_name: String,
    arch: TargetArch,
    os: TargetOs,
    env: TargetEnv,
}

/// Linux with the given environment on `x86_64` or `aarch64`.
pub open spec fn linux_with(arch: TargetArch, os: TargetOs, env: TargetEnv, want: TargetEnv) -> bool {
    os == TargetOs::Linux && env == want && (arch == TargetArch::X86_64 || arch == TargetArch::Aarch64)
}

pub open spec fn windows_gnu(arch: TargetArch, os: TargetOs, env: TargetEnv) -> bool {
    os == TargetOs::Windows && env == TargetEnv::Gnu && arch == TargetArch::X86_64
}

pub open spec fn apple_darwin(arch: TargetArch, os: TargetOs) -> bool {
    os == TargetOs::Darwin && (arch == TargetArch::X86_64 || arch == TargetArch::Aarch64)
}

/// The triple classes accepted on any host.
pub open spec fn supported_class(arch: TargetArch, os: TargetOs, env: TargetEnv) -> bool {
    ||| linux_with(arch, os, env, TargetEnv::Gnu)
    ||| linux_with(arch, os, env, TargetEnv::Musl)
    ||| windows_gnu(arch, os, env)
    ||| apple_darwin(arch, os)
}

impl TargetTriple {
    /// Printed triple.
    pub closed spec fn text_view(&self) -> Seq<char> {
        self.text@
    }

    /// Printed architecture, operating system and environment.
    pub closed spec fn arch_text_view(&self) -> Seq<char> {
        self.arch_name@
    }

    pub closed spec fn os_text_view(&self) -> Seq<char> {
        self.os_name@
    }

    pub closed spec fn env_text_view(&self) -> Seq<char> {
        self.env_name@
    }

    /// The classes are those of the printed components.
    #[verifier::type_invariant]
    closed spec fn classes_match(self) -> bool {
        &&& self.arch == arch_class(self.arch_name@)
        &&& self.os == os_class(self.os_name@)
        &&& self.env == env_class(self.env_name@)
    }

    /// The classes are those of the printed components.
    pub open spec fn classified(&self) -> bool {
        &&& self.arch_kind() == arch_class(self.arch_text_view())
        &&& self.os_kind() == os_class(self.os_text_view())
        &&& self.env_kind() == env_class(self.env_text_view())
    }

    pub closed spec fn arch_kind(&self) -> TargetArch {
        self.arch
    }

    pub closed spec fn os_kind(&self) -> TargetOs {
        self.os
    }

    pub closed spec fn env_kind(&self) -> TargetEnv {
        self.env
    }

    fn from_parts(p: TripleParts) -> (r: Self)
        ensures
            r.text_view() == p.text@,
            r.arch_text_view() == p.arch@,
            r.os_text_view() == p.os@,
            r.env_text_view() == p.env@,
            r.arch_kind() == arch_class(p.arch@),
            r.os_kind() == os_class(p.os@),
            r.env_kind() == env_class(p.env@),
    {
        let arch = classify_arch(p.arch.as_str());
        let os = classify_os(p.os.as_str());
        let env = classify_env(p.env.as_str());
        TargetTriple { triple: p.triple, text: p.text, arch_name: p.arch, os_name: p.os, env_name: p.env, arch, os, env }
    }

    /// The host triple (what the crate was built for). Which triple that is
    /// depends on the machine; its classes are those of its printed parts.
    pub fn host() -> (r: Self)
        ensures
            r.classified(),
    {
        Self::from_parts(lexicon_host())
    }

    /// Whether two targets print alike: the whole triple and each of its
    /// architecture, operating system and environment.
    pub fn same_triple(&self, other: &Self) -> (r: bool)
        ensures
            r == (self.text_view() == other.text_view() && self.arch_text_view() == other.arch_text_view()
                && self.os_text_view() == other.os_text_view() && self.env_text_view()
                == other.env_text_view()),
    {
        str_eq(self.text.as_str(), other.text.as_str()) && str_eq(self.arch_name.as_str(), other.arch_name.as_str())
            && str_eq(self.os_name.as_str(), other.os_name.as_str()) && str_eq(
            self.env_name.as_str(),
            other.env_name.as_str(),
        )
    }

    /// Parse and accept a supported AOT triple, or reject with a clear
    /// message. Surrounding whitespace is ignored. Empty input and strings
    /// `target_lexicon` cannot parse are rejected; a triple of a supported
    /// class is accepted (Cranelift is built with their code generators);
    /// a triple of no supported class is accepted only as the host triple on
    /// a linux-gnu host whose architecture is not big-endian `aarch64`.
    pub fn parse(input: &str) -> (r: Result<Self, TargetError>)
        ensures
            trim_spec(input@).len() == 0 ==> (r matches Err(e) && e.triple@.len() == 0
                && e.message@ == "target triple must not be empty"@),
            r matches Err(e) ==> e.triple@ == trim_spec(input@),
            trim_spec(input@).len() > 0 ==> match lexicon_triple(trim_spec(input@)) {
                Err(m) => r matches Err(e) && e.message@ == "invalid target triple: "@ + m,
                Ok(q) => {
                    &&& (r matches Ok(t) ==> t.text_view() == q.0 && t.arch_text_view() == q.1
                        && t.os_text_view() == q.2 && t.env_text_view() == q.3 && t.classified())
                    &&& (supported_class(arch_class(q.1), os_class(q.2), env_class(q.3)) ==> r is Ok)
                    &&& (r is Ok ==> supported_class(arch_class(q.1), os_class(q.2), env_class(q.3)) || (
                    os_class(q.2) == TargetOs::Linux && env_class(q.3) == TargetEnv::Gnu && q.1
                        != "aarch64_be"@))
                    &&& (!supported_class(arch_class(q.1), os_class(q.2), env_class(q.3)) && !(os_class(q.2)
                        == TargetOs::Linux && env_class(q.3) == TargetEnv::Gnu && q.1 != "aarch64_be"@) ==> (
                    r matches Err(e) && e.message@ == unsupported_message(trim_spec(input@))))
                },
            },
    {
        let trimmed = string_of_chars(&trim_chars(&chars_of(input)));
        if chars_of(trimmed.as_str()).len() == 0 {
            return Err(TargetError::unsupported(trimmed, owned("target triple must not be empty")));
        }
        let parts = match lexicon_parse(trimmed.as_str()) {
            Ok(p) => p,
            Err(e) => {
                let mut m = owned("invalid target triple: ");
                push_str(&mut m, e.as_str());
                return Err(TargetError::unsupported(trimmed, m));
            },
        };
        let parsed = Self::from_parts(parts);
        if !parsed.is_supported() {
            let mut m = owned("unsupported AOT target '");
            push_str(&mut m, trimmed.as_str());
            push_str(&mut m, "' (supported: ");
            let ghost head = m@;
            let names = supported_triple_names();
            let mut i: usize = 0;
            assert(name_list(supported_names_spec().take(0)) =~= Seq::<char>::empty());
            assert(m@ =~= head + name_list(supported_names_spec().take(0)));
            while i < names.len()
                invariant
                    0 <= i <= names@.len(),
                    names@.len() == supported_names_spec().len(),
                    forall|k: int| 0 <= k < names@.len() ==> (#[trigger] names@[k])@ == supported_names_spec()[k],
                    m@ == head + name_list(supported_names_spec().take(i as int)),
                decreases names@.len() - i,
            {
                let ghost before = m@;
                proof {
                    assert(supported_names_spec().take(i + 1).drop_last() =~= supported_names_spec().take(i as int));
                    assert(supported_names_spec().take(i + 1).last() == supported_names_spec()[i as int]);
                }
                if i > 0 {
                    push_str(&mut m, ", ");
                }
                push_str(&mut m, names[i]);
                proof {
                    if i > 0 {
                        assert(m@ =~= head + (name_list(supported_names_spec().take(i as int)) + ", "@
                            + supported_names_spec()[i as int]));
                    } else {
                        assert(m@ =~= head + supported_names_spec()[0]);
                    }
                }
                i += 1;
            }
            push_str(&mut m, ")");
            assert(supported_names_spec().take(i as int) =~= supported_names_spec());
            assert(m@ =~= "unsupported AOT target '"@ + trimmed@ + "' (supported: "@ + name_list(
                supported_names_spec(),
            ) + ")"@);
            assert(!supported_class(parsed.arch, parsed.os, parsed.env));
            return Err(TargetError::unsupported(trimmed, m));
        }
        proof {
            reveal_strlit("aarch64_be");
            reveal_strlit("x86_64");
            reveal_strlit("aarch64");
            assert("aarch64_be"@ != "x86_64"@ && "aarch64_be"@ != "aarch64"@) by {
                assert("aarch64_be"@.len() != "x86_64"@.len());
                assert("aarch64_be"@.len() != "aarch64"@.len());
            }
        }
        if let Err(e) = isa_lookup(&parsed) {
            let mut m = owned("Cranelift has no ISA for '");
            proof {
                reveal_strlit("Cranelift has no ISA for '");
                reveal_strlit("Cranelift has no ISA");
            }
            assert(m@.take(20) =~= "Cranelift has no ISA"@);
            push_str(&mut m, trimmed.as_str());
            push_str(&mut m, "': ");
            push_str(&mut m, e.as_str());
            assert(m@.take(20) =~= "Cranelift has no ISA"@);
            return Err(TargetError::unsupported(trimmed, m));
        }
        Ok(parsed)
    }

    /// Canonical string form (`x86_64-unknown-linux-gnu`, …).
    pub fn as_str(&self) -> (r: String)
        ensures
            r@ == self.text_view(),
    {
        self.text.clone()
    }

    /// Underlying `target_lexicon` triple.
    pub fn triple(&self) -> &target_lexicon::Triple {
        &self.triple
    }

    /// True when this is the compile host: it prints as the host triple
    /// does (`same_triple` against `host()`).
    pub fn is_host(&self) -> bool {
        let host = Self::host();
        self.same_triple(&host)
    }

    /// Linux GNU userland targets linked with `ld` / `lld` (dynamic glibc).
    pub fn is_linux_gnu(&self) -> (r: bool)
        ensures
            r == linux_with(self.arch_kind(), self.os_kind(), self.env_kind(), TargetEnv::Gnu),
    {
        self.os == TargetOs::Linux && self.env == TargetEnv::Gnu && (self.arch == TargetArch::X86_64
            || self.arch == TargetArch::Aarch64)
    }

    /// Linux musl userland targets (static-friendly ELF).
    pub fn is_linux_musl(&self) -> (r: bool)
        ensures
            r == linux_with(self.arch_kind(), self.os_kind(), self.env_kind(), TargetEnv::Musl),
    {
        self.os == TargetOs::Linux && self.env == TargetEnv::Musl && (self.arch == TargetArch::X86_64
            || self.arch == TargetArch::Aarch64)
    }

    /// Linux ELF AOT targets (gnu or musl).
    pub fn is_linux_elf(&self) -> (r: bool)
        ensures
            r == (linux_with(self.arch_kind(), self.os_kind(), self.env_kind(), TargetEnv::Gnu)
                || linux_with(self.arch_kind(), self.os_kind(), self.env_kind(), TargetEnv::Musl)),
    {
        self.is_linux_gnu() || self.is_linux_musl()
    }

    /// Windows GNU (MinGW) COFF targets (object emit).
    pub fn is_windows_gnu(&self) -> (r: bool)
        ensures
            r == windows_gnu(self.arch_kind(), self.os_kind(), self.env_kind()),
    {
        self.os == TargetOs::Windows && self.env == TargetEnv::Gnu && self.arch == TargetArch::X86_64
    }

    /// Apple Darwin Mach-O targets (object emit).
    pub fn is_apple_darwin(&self) -> (r: bool)
        ensures
            r == apple_darwin(self.arch_kind(), self.os_kind()),
    {
        self.os == TargetOs::Darwin && (self.arch == TargetArch::X86_64 || self.arch
            == TargetArch::Aarch64)
    }

    /// Non-ELF object formats accepted for emit.
    pub fn is_non_elf_object(&self) -> (r: bool)
        ensures
            r == (windows_gnu(self.arch_kind(), self.os_kind(), self.env_kind()) || apple_darwin(
                self.arch_kind(),
                self.os_kind(),
            )),
    {
        self.is_windows_gnu() || self.is_apple_darwin()
    }

    /// Whether `link_executable` may succeed for this triple on a linux-gnu host.
    pub fn supports_executable_link(&self) -> (r: bool)
        ensures
            r == (linux_with(self.arch_kind(), self.os_kind(), self.env_kind(), TargetEnv::Gnu)
                || linux_with(self.arch_kind(), self.os_kind(), self.env_kind(), TargetEnv::Musl)),
    {
        self.is_linux_elf()
    }

    /// Whether AOT currently accepts this triple: every supported class, and
    /// the host triple itself on a linux-gnu host.
    pub fn is_supported(&self) -> (r: bool)
        ensures
            supported_class(self.arch_kind(), self.os_kind(), self.env_kind()) ==> r,
            r ==> supported_class(self.arch_kind(), self.os_kind(), self.env_kind()) || (self.os_kind()
                == TargetOs::Linux && self.env_kind() == TargetEnv::Gnu && self.arch_text_view()
                != "aarch64_be"@),
    {
        proof {
            use_type_invariant(self);
        }
        if self.is_linux_elf() || self.is_windows_gnu() || self.is_apple_darwin() {
            return true;
        }
        // The host triple is also accepted when the host is a linux-gnu
        // system of another architecture, except big-endian `aarch64`, for
        // which Cranelift has no code generator.
        let host = Self::host();
        if self.same_triple(&host) {
            proof {
                use_type_invariant(&host);
            }
            return host.os == TargetOs::Linux && host.env == TargetEnv::Gnu && !str_eq(
                host.arch_name.as_str(),
                "aarch64_be",
            );
        }
        false
    }

    /// The ELF `ld -m` emulation of a linux ELF target.
    pub open spec fn elf_emulation_spec(&self) -> Option<Seq<char>> {
        if !(linux_with(self.arch_kind(), self.os_kind(), self.env_kind(), TargetEnv::Gnu)
            || linux_with(self.arch_kind(), self.os_kind(), self.env_kind(), TargetEnv::Musl)) {
            None
        } else if self.arch_kind() == TargetArch::X86_64 {
            Some("elf_x86_64"@)
        } else {
            Some("aarch64linux"@)
        }
    }

    /// ELF `ld -m` emulation for this triple.
    pub fn elf_emulation(&self) -> (r: Option<&'static str>)
        ensures
            match r {
                Some(s) => self.elf_emulation_spec() == Some(s@),
                None => self.elf_emulation_spec() is None,
            },
    {
        if !self.is_linux_elf() {
            return None;
        }
        match self.arch {
            TargetArch::X86_64 => Some("elf_x86_64"),
            TargetArch::Aarch64 => Some("aarch64linux"),
            TargetArch::Other => None,
        }
    }

    /// Dynamic linker soname used when locating the C runtime.
    pub fn dynamic_linker_name(&self) -> (r: Option<&'static str>)
        ensures
            match r {
                Some(s) => {
                    ||| (self.env_kind() == TargetEnv::Gnu && self.os_kind() == TargetOs::Linux
                        && self.arch_kind() == TargetArch::X86_64 && s@ == "ld-linux-x86-64.so.2"@)
                    ||| (self.env_kind() == TargetEnv::Gnu && self.os_kind() == TargetOs::Linux
                        && self.arch_kind() == TargetArch::Aarch64 && s@ == "ld-linux-aarch64.so.1"@)
                    ||| (self.env_kind() == TargetEnv::Musl && self.arch_kind() == TargetArch::X86_64
                        && s@ == "ld-musl-x86_64.so.1"@)
                    ||| (self.env_kind() == TargetEnv::Musl && self.arch_kind() == TargetArch::Aarch64
                        && s@ == "ld-musl-aarch64.so.1"@)
                },
                None => !((self.env_kind() == TargetEnv::Gnu && self.os_kind() == TargetOs::Linux)
                    || self.env_kind() == TargetEnv::Musl) || self.arch_kind() == TargetArch::Other,
            },
    {
        match (self.env, self.arch) {
            (TargetEnv::Gnu, TargetArch::X86_64) => if self.os == TargetOs::Linux {
                Some("ld-linux-x86-64.so.2")
            } else {
                None
            },
            (TargetEnv::Gnu, TargetArch::Aarch64) => if self.os == TargetOs::Linux {
                Some("ld-linux-aarch64.so.1")
            } else {
                None
            },
            (TargetEnv::Musl, TargetArch::X86_64) => Some("ld-musl-x86_64.so.1"),
            (TargetEnv::Musl, TargetArch::Aarch64) => Some("ld-musl-aarch64.so.1"),
            _ => None,
        }
    }

    /// Env-var suffix for per-triple archive overrides: `-` and `.` become `_`.
    pub fn env_key_suffix(&self) -> (r: String)
        ensures
            r@ == self.text_view().map_values(|c: char| if c == '-' || c == '.' { '_' } else { c }),
    {
        let cs = chars_of(self.text.as_str());
        let mut out = String::new();
        let mut i: usize = 0;
        while i < cs.len()
            invariant
                0 <= i <= cs@.len(),
                cs@ == self.text@,
                out@ == cs@.take(i as int).map_values(
                    |c: char| if c == '-' || c == '.' { '_' } else { c },
                ),
            decreases cs@.len() - i,
        {
            let c = cs[i];
            push_char(&mut out, if c == '-' || c == '.' { '_' } else { c });
            proof {
                assert(cs@.take(i + 1).drop_last() =~= cs@.take(i as int));
                assert(out@ =~= cs@.take(i + 1).map_values(
                    |c: char| if c == '-' || c == '.' { '_' } else { c },
                ));
            }
            i += 1;
        }
        assert(cs@.take(cs@.len() as int) =~= cs@);
        out
    }

    /// A copy of this triple.
    pub fn duplicate(&self) -> (r: Self)
        ensures
            r.text_view() == self.text_view(),
            r.arch_text_view() == self.arch_text_view(),
            r.os_text_view() == self.os_text_view(),
            r.env_text_view() == self.env_text_view(),
            r.arch_kind() == self.arch_kind(),
            r.os_kind() == self.os_kind(),
            r.env_kind() == self.env_kind(),
    {
        proof {
            use_type_invariant(self);
        }
        TargetTriple {
            triple: triple_clone(&self.triple),
            text: self.text.clone(),
            arch_name: self.arch_name.clone(),
            os_name: self.os_name.clone(),
            env_name: self.env_name.clone(),
            arch: self.arch,
            os: self.os,
            env: self.env,
        }
    }

    /// Whether two triples are the same target: they print alike, whole and
    /// component by component.
    pub fn same_target(&self, other: &TargetTriple) -> (r: bool)
        ensures
            r == (self.text_view() == other.text_view() && self.arch_text_view() == other.arch_text_view()
                && self.os_text_view() == other.os_text_view() && self.env_text_view()
                == other.env_text_view()),
    {
        self.same_triple(other)
    }
}

/// Failure to select an AOT target (maps to diagnostic `E397`).
#[derive(Debug)]
pub struct TargetError {
    pub triple: String,
    pub message: String,
}

impl TargetError {
    fn unsupported(triple: String, message: String) -> (r: Self)
        ensures
            r.triple@ == triple@,
            r.message@ == message@,
    {
        TargetError { triple, message }
    }
}

/// The documented triples: linux-gnu, linux-musl, Windows, then Darwin.
pub open spec fn supported_names_spec() -> Seq<Seq<char>> {
    seq![
        "x86_64-unknown-linux-gnu"@,
        "aarch64-unknown-linux-gnu"@,
        "x86_64-unknown-linux-musl"@,
        "aarch64-unknown-linux-musl"@,
        "x86_64-pc-windows-gnu"@,
        "x86_64-apple-darwin"@,
        "aarch64-apple-darwin"@,
    ]
}

/// Canonical names listed in `E397` and the docs (linux, then Windows / Darwin).
pub fn supported_triple_names() -> (r: Vec<&'static str>)
    ensures
        r@.len() == supported_names_spec().len(),
        forall|i: int| 0 <= i < r@.len() ==> (#[trigger] r@[i])@ == supported_names_spec()[i],
{
    let names = vec![
        "x86_64-unknown-linux-gnu",
        "aarch64-unknown-linux-gnu",
        "x86_64-unknown-linux-musl",
        "aarch64-unknown-linux-musl",
        "x86_64-pc-windows-gnu",
        "x86_64-apple-darwin",
        "aarch64-apple-darwin",
    ];
    names
}

/// Names joined with `, `.
pub open spec fn name_list(names: Seq<Seq<char>>) -> Seq<char>
    decreases names.len(),
{
    if names.len() == 0 {
        Seq::empty()
    } else if names.len() == 1 {
        names[0]
    } else {
        name_list(names.drop_last()) + ", "@ + names.last()
    }
}

/// The message that rejects a triple of no supported class.
pub open spec fn unsupported_message(triple: Seq<char>) -> Seq<char> {
    "unsupported AOT target '"@ + triple + "' (supported: "@ + name_list(supported_names_spec()) + ")"@
}

/// `text` is the printed form of a documented triple that parses.
pub open spec fn documented_text(text: Seq<char>) -> bool {
    exists|n: int|
        0 <= n < supported_names_spec().len() && ((#[trigger] lexicon_triple(trim_spec(supported_names_spec()[n])))
            matches Ok(q) && text == q.0)
}

/// Triples documented as supported for object emit: the host when it is
/// supported, then each documented triple that parses and is not already
/// listed. Which host there is, and which triples are the same target, the
/// outside triple type decides; every entry after the first is a documented
/// triple.
pub fn supported_triples() -> (r: Vec<TargetTriple>)
    ensures
        r@.len() <= 1 + supported_names_spec().len(),
        forall|k: int| 1 <= k < r@.len() ==> documented_text(#[trigger] r@[k].text_view()),
{
    let mut out: Vec<TargetTriple> = Vec::new();
    let host = TargetTriple::host();
    if host.is_supported() {
        out.push(host);
    }
    let names = supported_triple_names();
    let mut i: usize = 0;
    while i < names.len()
        invariant
            0 <= i <= names@.len(),
            names@.len() == supported_names_spec().len(),
            forall|n: int| 0 <= n < names@.len() ==> (#[trigger] names@[n])@ == supported_names_spec()[n],
            out@.len() <= 1 + i,
            forall|k: int| 1 <= k < out@.len() ==> documented_text(#[trigger] out@[k].text_view()),
        decreases names@.len() - i,
    {
        if let Ok(t) = TargetTriple::parse(names[i]) {
            proof {
                assert(names@[i as int]@ == supported_names_spec()[i as int]);
                assert(documented_text(t.text_view()));
            }
            let mut seen = false;
            let mut j: usize = 0;
            while j < out.len()
                invariant
                    j <= out@.len(),
                decreases out@.len() - j,
            {
                if out[j].same_target(&t) {
                    seen = true;
                }
                j += 1;
            }
            if !seen {
                let ghost before = out@;
                out.push(t);
                proof {
                    assert forall|k: int| 1 <= k < out@.len() implies documented_text(#[trigger] out@[k].text_view()) by {
                        if k < before.len() {
                            assert(out@[k] == before[k]);
                        }
                    }
                }
            }
        }
        i += 1;
    }
    out
}

} // verus!
