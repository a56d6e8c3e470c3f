//! Long-form explanations for diagnostic codes.

use vstd::prelude::*;
use crate::text::{ascii_upper, chars_of, push_char, push_str, str_eq, string_of_chars, to_ascii_upper, trim_chars, trim_spec};

verus! {

/// One catalog entry: code, short title, and an explanation paragraph.
#[derive(Debug, Clone, Copy)]
pub struct ExplainEntry {
    pub code: &'static str,
    pub title: &'static str,
    pub body: &'static str,
}

/// The explanation catalog, in lookup order.
pub open spec fn spec_catalog() -> Seq<ExplainEntry> {
    seq![
        ExplainEntry { code: "E308", title: "unwrap and fallible returns", body: "\
A function declared `with |T Err|` is fallible: success carries `T` (or nothing \
if `T` is void), and failure carries an error member in an envelope.

`unwrap` applies to that envelope. On success it pushes the payload. On failure \
it propagates the error to the caller, so the caller must also be fallible \
(`with |T Err|`). Using `unwrap` in a function that cannot error is rejected.

On a value that is not an error envelope, `unwrap` is an identity (a no-op).

If the caller cannot propagate, recover with `handle ... fallback ... end` \
instead of `unwrap`. Anonymous `|T U|` unions are only supported as this \
fallible-return form, not as general types." },
        ExplainEntry { code: "E370", title: "unsafe operation outside an unsafe context", body: "\
Raw pointers, `mem.allocate` / `free` / `load` / `store`, and calls to \
`unsafe function` need an unsafe context. Wrap the operation in \
`unsafe ... end`, or mark the enclosing function `unsafe function`.

`unsafe` does not turn off type, stack, ownership, or borrow checking." },
        ExplainEntry { code: "E373", title: "use after move", body: "\
`move` transfers ownership: the source name is empty afterwards. Read from the \
destination variable, or avoid moving if you still need the source." },
        ExplainEntry { code: "E374", title: "mutation or drop while a borrow is live", body: "\
A live `borrow` (or region put) pins the owner until the reference is released. \
Pop or otherwise consume the reference before mutating or dropping the owner." },
        ExplainEntry { code: "E375", title: "second overlapping borrow", body: "\
Yarrow allows only one live borrow of a value at a time. Release the first \
reference (for example with `pop`) before borrowing again." },
        ExplainEntry { code: "E376", title: "use after region free", body: "\
Values put into a region become invalid after `region.free`. Finish using \
borrows of region-attached values before freeing the region." },
        ExplainEntry { code: "E334", title: "integer-only remainder and power", body: "\
`%` is integer remainder and `^` is integer exponentiation. They apply to \
integer operands only, not to floats.

For floats, use `/` for division. There is no float power operator yet; use \
integer `^` or an explicit conversion if you need exponentiation on integers \
first." },
        ExplainEntry { code: "E382", title: "module dependency cycle", body: "\
A `require` closed a cycle in the module graph (A loads B which loads A again \
while A is still loading). Break the cycle by removing or restructuring one \
`require`. Shared helpers should be required from leaves toward shared modules, \
not mutually." },
        ExplainEntry { code: "E383", title: "missing or empty project root", body: "\
`check_project` needs at least one root `.yar` file. \
`ProjectOptions::from_root_paths` fails with this code when a path is missing \
or unreadable. Supply existing paths or in-memory `ProjectRoot` sources." },
        ExplainEntry { code: "E394", title: "system linker or CRT missing", body: "\
Native executable emit links the program object with the runtime archive for \
the selected target using a system linker (`ld` / `lld`). Yarrow does not drive \
`cc` / `gcc` / `clang` to compile CRT or user code.

Install binutils `ld` or LLVM `lld`, and ensure libc CRT objects for the target \
are visible (on NixOS, a stdenv with glibc). Path discovery may use \
`cc -print-file-name` when present; that is lookup only. For a non-host triple, \
set `YARROW_AOT_SYSROOT` or `YARROW_AOT_CRT_DIR`, or install a matching cross \
toolchain (see docs/RUNTIME.md)." },
        ExplainEntry { code: "E395", title: "native link failed", body: "\
The system linker ran but failed to produce an executable. Check the linker \
message for missing libraries or CRT objects. Fix the host link environment; \
do not fall back to JIT for `--target object`." },
        ExplainEntry { code: "E396", title: "runtime archive unavailable", body: "\
AOT link needs `libyarrow_runtime_aot` for the selected target triple. Rebuild \
`yarrow-core` so `YARROW_RUNTIME_AOT_ARCHIVE` (host) or the Stage 26 archive \
table points at a non-empty archive, or set \
`YARROW_RUNTIME_AOT_ARCHIVE_<triple_with_underscores>` to an archive built with \
`cargo build -p yarrow_runtime_aot --target <triple>` (same ABI as the host \
runtime; see docs/RUNTIME.md)." },
        ExplainEntry { code: "E397", title: "unsupported or invalid AOT target", body: "\
Object / executable emit accepts the host linux-gnu triple and the Stage 26 \
cross triple (the other of `x86_64-unknown-linux-gnu` / \
`aarch64-unknown-linux-gnu`). Mach-O, Windows, musl, and other triples are not \
supported yet. JIT requires the host triple. Set `CompileOptions::target` to a \
supported value or leave it unset for the host." },
        ExplainEntry { code: "W401", title: "unused binding", body: "\
A `const`, `mutable`, or `static` name was declared but never read, written, or \
moved from. Remove the binding, or use the value (for example with `pop` / \
`drop`, a call, or an assignment)." },
        ExplainEntry { code: "W402", title: "unused require", body: "\
A `require` brought a module or item into scope, but nothing in this file used \
it (no call through the alias, and no bare imported name). Remove the require, \
or call a function it exposes." },
        ExplainEntry { code: "W403", title: "dead stack value", body: "\
A value was left on the operand stack and discarded at scope exit (return or \
falling off the end of a function). Consume it with an operator, `pop` / \
`drop`, a call, or a binding, or avoid pushing it." },
        ExplainEntry { code: "W404", title: "never-written mutable", body: "\
A `mutable` binding of a scalar or enum type was read but never reassigned with \
`set` or `move`. Prefer `const` unless the binding will be written. Containers, \
structs, and pointers are not covered: they may mutate without rebinding the name." },
        ExplainEntry { code: "W405", title: "redundant copy", body: "\
A function parameter is marked `copy`, but the parameter type is not heap-backed \
(`string`, `list`, `hashmap`, struct, union, or array). `copy` deep-copies those \
heap values into the callee; on scalars, enums, and pointers it has no effect. \
Omit `copy` unless the parameter needs a deep copy." },
        ExplainEntry { code: "W406", title: "ambiguous require path", body: "\
A dotted `require` path names both a nested module file and a function in the \
parent module. The function wins (item import). Rename one of them, or require \
the parent module and call the function through that scope." },
        ExplainEntry { code: "W407", title: "unreachable code", body: "\
A statement appears after divergent control flow (`return`, or both branches of \
an `if` that return, or `loop.break` / `loop.continue`). It can never run. Remove \
it or move it before the divergent statement." },
    ]
}

/// The catalog as a vector.
pub fn catalog() -> (r: Vec<ExplainEntry>)
    ensures
        r@ == spec_catalog(),
{
    let mut v: Vec<ExplainEntry> = Vec::new();
    v.push(ExplainEntry { code: "E308", title: "unwrap and fallible returns", body: "\
A function declared `with |T Err|` is fallible: success carries `T` (or nothing \
if `T` is void), and failure carries an error member in an envelope.

`unwrap` applies to that envelope. On success it pushes the payload. On failure \
it propagates the error to the caller, so the caller must also be fallible \
(`with |T Err|`). Using `unwrap` in a function that cannot error is rejected.

On a value that is not an error envelope, `unwrap` is an identity (a no-op).

If the caller cannot propagate, recover with `handle ... fallback ... end` \
instead of `unwrap`. Anonymous `|T U|` unions are only supported as this \
fallible-return form, not as general types." });
    v.push(ExplainEntry { code: "E370", title: "unsafe operation outside an unsafe context", body: "\
Raw pointers, `mem.allocate` / `free` / `load` / `store`, and calls to \
`unsafe function` need an unsafe context. Wrap the operation in \
`unsafe ... end`, or mark the enclosing function `unsafe function`.

`unsafe` does not turn off type, stack, ownership, or borrow checking." });
    v.push(ExplainEntry { code: "E373", title: "use after move", body: "\
`move` transfers ownership: the source name is empty afterwards. Read from the \
destination variable, or avoid moving if you still need the source." });
    v.push(ExplainEntry { code: "E374", title: "mutation or drop while a borrow is live", body: "\
A live `borrow` (or region put) pins the owner until the reference is released. \
Pop or otherwise consume the reference before mutating or dropping the owner." });
    v.push(ExplainEntry { code: "E375", title: "second overlapping borrow", body: "\
Yarrow allows only one live borrow of a value at a time. Release the first \
reference (for example with `pop`) before borrowing again." });
    v.push(ExplainEntry { code: "E376", title: "use after region free", body: "\
Values put into a region become invalid after `region.free`. Finish using \
borrows of region-attached values before freeing the region." });
    v.push(ExplainEntry { code: "E334", title: "integer-only remainder and power", body: "\
`%` is integer remainder and `^` is integer exponentiation. They apply to \
integer operands only, not to floats.

For floats, use `/` for division. There is no float power operator yet; use \
integer `^` or an explicit conversion if you need exponentiation on integers \
first." });
    v.push(ExplainEntry { code: "E382", title: "module dependency cycle", body: "\
A `require` closed a cycle in the module graph (A loads B which loads A again \
while A is still loading). Break the cycle by removing or restructuring one \
`require`. Shared helpers should be required from leaves toward shared modules, \
not mutually." });
    v.push(ExplainEntry { code: "E383", title: "missing or empty project root", body: "\
`check_project` needs at least one root `.yar` file. \
`ProjectOptions::from_root_paths` fails with this code when a path is missing \
or unreadable. Supply existing paths or in-memory `ProjectRoot` sources." });
    v.push(ExplainEntry { code: "E394", title: "system linker or CRT missing", body: "\
Native executable emit links the program object with the runtime archive for \
the selected target using a system linker (`ld` / `lld`). Yarrow does not drive \
`cc` / `gcc` / `clang` to compile CRT or user code.

Install binutils `ld` or LLVM `lld`, and ensure libc CRT objects for the target \
are visible (on NixOS, a stdenv with glibc). Path discovery may use \
`cc -print-file-name` when present; that is lookup only. For a non-host triple, \
set `YARROW_AOT_SYSROOT` or `YARROW_AOT_CRT_DIR`, or install a matching cross \
toolchain (see docs/RUNTIME.md)." });
    v.push(ExplainEntry { code: "E395", title: "native link failed", body: "\
The system linker ran but failed to produce an executable. Check the linker \
message for missing libraries or CRT objects. Fix the host link environment; \
do not fall back to JIT for `--target object`." });
    v.push(ExplainEntry { code: "E396", title: "runtime archive unavailable", body: "\
AOT link needs `libyarrow_runtime_aot` for the selected target triple. Rebuild \
`yarrow-core` so `YARROW_RUNTIME_AOT_ARCHIVE` (host) or the Stage 26 archive \
table points at a non-empty archive, or set \
`YARROW_RUNTIME_AOT_ARCHIVE_<triple_with_underscores>` to an archive built with \
`cargo build -p yarrow_runtime_aot --target <triple>` (same ABI as the host \
runtime; see docs/RUNTIME.md)." });
    v.push(ExplainEntry { code: "E397", title: "unsupported or invalid AOT target", body: "\
Object / executable emit accepts the host linux-gnu triple and the Stage 26 \
cross triple (the other of `x86_64-unknown-linux-gnu` / \
`aarch64-unknown-linux-gnu`). Mach-O, Windows, musl, and other triples are not \
supported yet. JIT requires the host triple. Set `CompileOptions::target` to a \
supported value or leave it unset for the host." });
    v.push(ExplainEntry { code: "W401", title: "unused binding", body: "\
A `const`, `mutable`, or `static` name was declared but never read, written, or \
moved from. Remove the binding, or use the value (for example with `pop` / \
`drop`, a call, or an assignment)." });
    v.push(ExplainEntry { code: "W402", title: "unused require", body: "\
A `require` brought a module or item into scope, but nothing in this file used \
it (no call through the alias, and no bare imported name). Remove the require, \
or call a function it exposes." });
    v.push(ExplainEntry { code: "W403", title: "dead stack value", body: "\
A value was left on the operand stack and discarded at scope exit (return or \
falling off the end of a function). Consume it with an operator, `pop` / \
`drop`, a call, or a binding, or avoid pushing it." });
    v.push(ExplainEntry { code: "W404", title: "never-written mutable", body: "\
A `mutable` binding of a scalar or enum type was read but never reassigned with \
`set` or `move`. Prefer `const` unless the binding will be written. Containers, \
structs, and pointers are not covered: they may mutate without rebinding the name." });
    v.push(ExplainEntry { code: "W405", title: "redundant copy", body: "\
A function parameter is marked `copy`, but the parameter type is not heap-backed \
(`string`, `list`, `hashmap`, struct, union, or array). `copy` deep-copies those \
heap values into the callee; on scalars, enums, and pointers it has no effect. \
Omit `copy` unless the parameter needs a deep copy." });
    v.push(ExplainEntry { code: "W406", title: "ambiguous require path", body: "\
A dotted `require` path names both a nested module file and a function in the \
parent module. The function wins (item import). Rename one of them, or require \
the parent module and call the function through that scope." });
    v.push(ExplainEntry { code: "W407", title: "unreachable code", body: "\
A statement appears after divergent control flow (`return`, or both branches of \
an `if` that return, or `loop.break` / `loop.continue`). It can never run. Remove \
it or move it before the divergent statement." });
    assert(v@ =~= spec_catalog());
    v
}

/// Number of leading `#` characters.
pub open spec fn lead_hash(s: Seq<char>) -> nat
    decreases s.len(),
{
    if s.len() > 0 && s[0] == '#' {
        1 + lead_hash(s.drop_first())
    } else {
        0
    }
}

pub open spec fn all_ascii_digits(s: Seq<char>) -> bool {
    forall|i: int| 0 <= i < s.len() ==> '0' <= #[trigger] s[i] && s[i] <= '9'
}

/// The catalog form of a user-supplied code: trimmed, leading `#`s removed,
/// ASCII upper-cased; bare digits get an `E` prefix.
pub open spec fn normalize_spec(code: Seq<char>) -> Seq<char> {
    let t = trim_spec(code);
    let u = upper_seq(t.skip(lead_hash(t) as int));
    if u.len() > 0 && (u[0] == 'E' || u[0] == 'W') {
        u
    } else if u.len() > 0 && all_ascii_digits(u) {
        seq!['E'] + u
    } else {
        u
    }
}

/// ASCII upper-casing of every character.
pub open spec fn upper_seq(s: Seq<char>) -> Seq<char> {
    s.map_values(|c: char| ascii_upper(c))
}

/// First entry of `entries` whose code is `key`.
pub open spec fn find_code(entries: Seq<ExplainEntry>, key: Seq<char>) -> Option<ExplainEntry>
    decreases entries.len(),
{
    if entries.len() == 0 {
        None
    } else if entries[0].code@ == key {
        Some(entries[0])
    } else {
        find_code(entries.drop_first(), key)
    }
}

proof fn lemma_lead_hash(s: Seq<char>)
    ensures
        lead_hash(s) <= s.len(),
        forall|i: int| 0 <= i < lead_hash(s) ==> #[trigger] s[i] == '#',
        lead_hash(s) < s.len() ==> s[lead_hash(s) as int] != '#',
    decreases s.len(),
{
    if s.len() > 0 && s[0] == '#' {
        lemma_lead_hash(s.drop_first());
        assert forall|i: int| 0 <= i < lead_hash(s) implies #[trigger] s[i] == '#' by {
            if i > 0 {
                assert(s[i] == s.drop_first()[i - 1]);
            }
        }
        if lead_hash(s) < s.len() {
            assert(s[lead_hash(s) as int] == s.drop_first()[lead_hash(s.drop_first()) as int]);
        }
    }
}

/// Normalize a user-supplied code (`e308`, `308`, `#E308`, `w401`) to catalog form.
pub fn normalize_code(code: &str) -> (r: String)
    ensures
        r@ == normalize_spec(code@),
{
    let cs = chars_of(code);
    let t = trim_chars(&cs);
    proof {
        lemma_lead_hash(t@);
    }
    let mut start: usize = 0;
    while start < t.len() && t[start] == '#'
        invariant
            0 <= start <= lead_hash(t@),
            lead_hash(t@) <= t@.len(),
            forall|i: int| 0 <= i < lead_hash(t@) ==> #[trigger] t@[i] == '#',
            lead_hash(t@) < t@.len() ==> t@[lead_hash(t@) as int] != '#',
        decreases t@.len() - start,
    {
        start += 1;
    }
    let ghost u = upper_seq(t@.skip(start as int));
    let mut up: Vec<char> = Vec::new();
    let mut i = start;
    while i < t.len()
        invariant
            start <= i <= t@.len(),
            start == lead_hash(t@),
            u == upper_seq(t@.skip(start as int)),
            up@ == u.take(i - start),
        decreases t@.len() - i,
    {
        up.push(to_ascii_upper(t[i]));
        proof {
            assert(up@ =~= u.take(i + 1 - start));
        }
        i += 1;
    }
    assert(up@ =~= u);
    if up.len() > 0 && (up[0] == 'E' || up[0] == 'W') {
        return string_of_chars(&up);
    }
    let mut digits = up.len() > 0;
    let mut k: usize = 0;
    while k < up.len()
        invariant
            0 <= k <= up@.len(),
            digits ==> up@.len() > 0,
            digits ==> forall|j: int| 0 <= j < k ==> '0' <= #[trigger] up@[j] && up@[j] <= '9',
            !digits ==> (up@.len() == 0 || exists|j: int| 0 <= j < k && !('0' <= #[trigger] up@[j] && up@[j] <= '9')),
        decreases up@.len() - k,
    {
        if !('0' <= up[k] && up[k] <= '9') {
            digits = false;
        }
        k += 1;
    }
    assert(t@ == trim_spec(code@));
    assert(u == upper_seq(trim_spec(code@).skip(lead_hash(trim_spec(code@)) as int)));
    proof {
        if digits {
            assert(all_ascii_digits(u));
        } else if u.len() > 0 {
            assert(!all_ascii_digits(u));
        }
    }
    if digits {
        let mut out = String::new();
        push_char(&mut out, 'E');
        let rest = string_of_chars(&up);
        push_str(&mut out, rest.as_str());
        assert(out@ =~= seq!['E'] + u);
        assert(u.len() > 0 && all_ascii_digits(u));
        assert(!(u[0] == 'E' || u[0] == 'W'));
        assert(out@ == normalize_spec(code@));
        out
    } else {
        let r = string_of_chars(&up);
        assert(r@ == u);
        assert(!(u.len() > 0 && all_ascii_digits(u)));
        assert(r@ == normalize_spec(code@));
        r
    }
}

/// Look up the explanation for a diagnostic code (normalized first).
pub fn explain_code(code: &str) -> (r: Option<ExplainEntry>)
    ensures
        r == find_code(spec_catalog(), normalize_spec(code@)),
{
    let key = normalize_code(code);
    let entries = catalog();
    let mut i: usize = 0;
    assert(spec_catalog().skip(0) =~= spec_catalog());
    while i < entries.len()
        invariant
            0 <= i <= entries@.len(),
            entries@ == spec_catalog(),
            key@ == normalize_spec(code@),
            find_code(spec_catalog(), key@) == find_code(spec_catalog().skip(i as int), key@),
        decreases entries@.len() - i,
    {
        proof {
            assert(spec_catalog().skip(i as int).drop_first() =~= spec_catalog().skip(i + 1));
        }
        if str_eq(entries[i].code, key.as_str()) {
            assert(spec_catalog().skip(i as int)[0] == entries@[i as int]);
            assert(find_code(spec_catalog().skip(i as int), key@) == Some(entries@[i as int]));
            assert(key@ == normalize_spec(code@));
            assert(find_code(spec_catalog(), normalize_spec(code@)) == Some(entries@[i as int]));
            return Some(entries[i]);
        }
        i += 1;
    }
    assert(spec_catalog().skip(i as int).len() == 0);
    None
}

/// The printed form of a catalog entry: `kind[code]: title`, a blank line, the body.
pub open spec fn format_explain_spec(entry: ExplainEntry) -> Seq<char> {
    let kind = if entry.code@.len() > 0 && entry.code@[0] == 'W' { "warning"@ } else { "error"@ };
    kind + "["@ + entry.code@ + "]: "@ + entry.title@ + "\n\n"@ + entry.body@ + "\n"@
}

/// Render a catalog entry the way `rustc --explain` prints a code.
pub fn format_explain(entry: &ExplainEntry) -> (r: String)
    ensures
        r@ == format_explain_spec(*entry),
{
    let code = chars_of(entry.code);
    let mut out = String::new();
    if code.len() > 0 && code[0] == 'W' {
        push_str(&mut out, "warning");
    } else {
        push_str(&mut out, "error");
    }
    push_str(&mut out, "[");
    push_str(&mut out, entry.code);
    push_str(&mut out, "]: ");
    push_str(&mut out, entry.title);
    push_str(&mut out, "\n\n");
    push_str(&mut out, entry.body);
    push_str(&mut out, "\n");
    out
}

} // verus!
